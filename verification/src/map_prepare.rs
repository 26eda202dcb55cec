//! Building the terrain tables of a map from the raw file columns.
use crate::bytes::{
    get_i32, get_u32, i32_at, law_column_is_read_back, law_read_gives_back_write,
    law_signed_round_trip, le_all, le_bytes, read_f32_array, to_unsigned, u32_array, u32_at,
};
use crate::common::{CELLFLAG_BRIDGE, CELLFLAG_FLAT, CELLFLAG_LAND, MAP_GROUP_SIZE};
use crate::float_bits;
use crate::grid::{grid, lemma_grid_at};
use crate::map::{
    cell_index, groups_over, lemma_cell_index, no_cell, CompilePoint, GroupBounds, InshorePreSpawn,
    MapUnit, MoveCell, UnitPlane,
};
use vstd::prelude::*;

verus! {

/// The size of a point record.
pub const POINT_SIZE: usize = 12;

/// The size of a record of four move cells.
pub const MOVE_CELL_SIZE: usize = 64;

/// Bit pattern of positive infinity.
pub const INFINITY: u32 = 0x7f80_0000;

/// Bit pattern of negative infinity.
pub const NEG_INFINITY: u32 = 0xff80_0000;

// ── Points ──────────────────────────────────────────────────────────────
/// The point record that starts at `off`.
pub open spec fn point_at(s: Seq<u8>, off: int) -> CompilePoint {
    CompilePoint {
        move_idx: i32_at(s, off),
        z: u32_at(s, off + 4),
        b: s[off + 8],
        g: s[off + 9],
        r: s[off + 10],
        flags: s[off + 11],
    }
}

/// The first `n` point records.
pub open spec fn points_of(s: Seq<u8>, n: int) -> Seq<CompilePoint> {
    Seq::new(n as nat, |i: int| point_at(s, POINT_SIZE * i))
}

pub fn read_points(data: &Vec<u8>, n: usize) -> (r: Vec<CompilePoint>)
    requires
        POINT_SIZE * n <= data@.len(),
    ensures
        r@ == points_of(data@, n as int),
{
    let len = data.len();
    let bytes = data.as_slice();
    let mut r: Vec<CompilePoint> = Vec::new();
    let mut i: usize = 0;
    while i < n
        invariant
            len == data@.len(),
            bytes@ == data@,
            POINT_SIZE * n <= len,
            i <= n,
            r@ =~= points_of(data@, n as int).take(i as int),
        decreases n - i,
    {
        let off = POINT_SIZE * i;
        r.push(
            CompilePoint {
                move_idx: get_i32(bytes, off),
                z: get_u32(bytes, off + 4),
                b: bytes[off + 8],
                g: bytes[off + 9],
                r: bytes[off + 10],
                flags: bytes[off + 11],
            },
        );
        i = i + 1;
    }
    assert(r@ =~= points_of(data@, n as int));
    r
}

// ── Cells ───────────────────────────────────────────────────────────────
/// The cell whose near left corner is point `k` of rows of `stride` points.
pub open spec fn unit_spec(points: Seq<CompilePoint>, stride: int, x: int, y: int) -> MapUnit {
    let p0 = points[y * stride + x];
    let p1 = points[y * stride + x + 1];
    let p2 = points[(y + 1) * stride + x + 1];
    let p3 = points[(y + 1) * stride + x];
    if float_bits::eq_spec(p0.z, p1.z) && float_bits::eq_spec(p0.z, p2.z) && float_bits::eq_spec(
        p0.z,
        p3.z,
    ) {
        MapUnit { flags: p0.flags | CELLFLAG_FLAT, plane: UnitPlane::Flat { z: p0.z } }
    } else {
        MapUnit {
            flags: p0.flags & !CELLFLAG_FLAT,
            plane: UnitPlane::Corners { z0: p0.z, z1: p1.z, z2: p2.z, z3: p3.z },
        }
    }
}

pub open spec fn units_of(points: Seq<CompilePoint>, size_x: int, size_y: int) -> Seq<MapUnit> {
    grid(size_x, size_y, |x: int, y: int| unit_spec(points, size_x + 1, x, y))
}

/// The cells over a height map. A cell is flat exactly when its four corners
/// are equally high.
pub fn compute_units(points: &Vec<CompilePoint>, size_x: usize, size_y: usize) -> (r: Vec<MapUnit>)
    requires
        size_x < usize::MAX,
        size_y < usize::MAX,
        points@.len() == (size_x + 1) * (size_y + 1),
    ensures
        r@ == units_of(points@, size_x as int, size_y as int),
{
    let len = points.len();
    let stride = size_x + 1;
    let ghost goal = units_of(points@, size_x as int, size_y as int);
    let mut r: Vec<MapUnit> = Vec::new();
    let mut y: usize = 0;
    assert(0 * size_x == 0) by (nonlinear_arith);
    while y < size_y
        invariant
            len == points@.len(),
            stride == size_x + 1,
            size_y < usize::MAX,
            len == stride * (size_y + 1),
            goal == units_of(points@, size_x as int, size_y as int),
            y <= size_y,
            r@.len() == y * size_x,
            forall|k: int| 0 <= k < r@.len() ==> r@[k] == goal[k],
        decreases size_y - y,
    {
        let mut x: usize = 0;
        while x < size_x
            invariant
                len == points@.len(),
                stride == size_x + 1,
                size_y < usize::MAX,
                len == stride * (size_y + 1),
                goal == units_of(points@, size_x as int, size_y as int),
                y < size_y,
                x <= size_x,
                r@.len() == y * size_x + x,
                forall|k: int| 0 <= k < r@.len() ==> r@[k] == goal[k],
            decreases size_x - x,
        {
            proof {
                lemma_cell_index(x as int, y as int, stride as int, size_y + 1);
                lemma_cell_index(x + 1, y as int, stride as int, size_y + 1);
                lemma_cell_index(x as int, y + 1, stride as int, size_y + 1);
                lemma_cell_index(x + 1, y + 1, stride as int, size_y + 1);
            }
            let p0 = points[cell_index(x, y, stride, len)];
            let p1 = points[cell_index(x + 1, y, stride, len)];
            let p3 = points[cell_index(x, y + 1, stride, len)];
            let p2 = points[cell_index(x + 1, y + 1, stride, len)];
            let flat = float_bits::eq(p0.z, p1.z) && float_bits::eq(p0.z, p2.z) && float_bits::eq(
                p0.z,
                p3.z,
            );
            let unit = if flat {
                MapUnit { flags: p0.flags | CELLFLAG_FLAT, plane: UnitPlane::Flat { z: p0.z } }
            } else {
                MapUnit {
                    flags: p0.flags & !CELLFLAG_FLAT,
                    plane: UnitPlane::Corners { z0: p0.z, z1: p1.z, z2: p2.z, z3: p3.z },
                }
            };
            proof {
                lemma_grid_at(
                    size_x as int,
                    size_y as int,
                    |x: int, y: int| unit_spec(points@, size_x + 1, x, y),
                    x as int,
                    y as int,
                );
            }
            r.push(unit);
            x = x + 1;
        }
        proof {
            assert(y * size_x + size_x == (y + 1) * size_x) by (nonlinear_arith);
        }
        y = y + 1;
    }
    proof {
        assert(y * size_x == size_x * size_y) by (nonlinear_arith)
            requires
                y == size_y,
        ;
        assert(r@ =~= goal);
    }
    r
}

/// Which of the four neighbours of a point take part in its normal.
#[derive(Debug, Clone, Copy, PartialEq, Eq, Structural)]
pub struct Neighbours {
    pub up: bool,
    pub right: bool,
    pub down: bool,
    pub left: bool,
}

/// The cell lies on the map and is land.
pub open spec fn land_at(
    points: Seq<CompilePoint>,
    size_x: int,
    size_y: int,
    ux: int,
    uy: int,
) -> bool {
    0 <= ux < size_x && 0 <= uy < size_y && points[uy * (size_x + 1) + ux].flags & CELLFLAG_LAND
        != 0
}

fn is_land(points: &Vec<CompilePoint>, size_x: usize, size_y: usize, ux: i64, uy: i64) -> (b: bool)
    requires
        size_x <= i32::MAX,
        size_y <= i32::MAX,
        points@.len() == (size_x + 1) * (size_y + 1),
    ensures
        b == land_at(points@, size_x as int, size_y as int, ux as int, uy as int),
{
    if ux < 0 || uy < 0 || ux >= size_x as i64 || uy >= size_y as i64 {
        return false;
    }
    proof {
        lemma_cell_index(ux as int, uy as int, size_x + 1, size_y + 1);
    }
    points[cell_index(ux as usize, uy as usize, size_x + 1, points.len())].flags & CELLFLAG_LAND
        != 0
}

/// A neighbour takes part when the land cell that leads to it is there: the
/// cell behind for the one above, the cell to the left for the left one, the
/// point's own cell for the other two.
pub fn normal_neighbours(
    points: &Vec<CompilePoint>,
    size_x: usize,
    size_y: usize,
    px: usize,
    py: usize,
) -> (n: Neighbours)
    requires
        size_x <= i32::MAX,
        size_y <= i32::MAX,
        points@.len() == (size_x + 1) * (size_y + 1),
        px <= size_x,
        py <= size_y,
    ensures
        ({
            let land = |x: int, y: int| land_at(points@, size_x as int, size_y as int, x, y);
            &&& n.up == land(px as int, py - 1)
            &&& n.left == land(px - 1, py as int)
            &&& n.right == land(px as int, py as int)
            &&& n.down == land(px as int, py as int)
        }),
{
    let x = px as i64;
    let y = py as i64;
    let up = is_land(points, size_x, size_y, x, y - 1);
    let left = is_land(points, size_x, size_y, x - 1, y);
    let cur = is_land(points, size_x, size_y, x, y);
    Neighbours { up, right: cur, down: cur, left }
}

// ── Movement grid ───────────────────────────────────────────────────────
/// One move cell record.
pub open spec fn move_at(s: Seq<u8>, off: int) -> MoveCell {
    MoveCell {
        zone: i32_at(s, off),
        stop: u32_at(s, off + 4),
        sphere: u32_at(s, off + 8),
        zubchik: u32_at(s, off + 12),
    }
}

/// The move cell at a position: its map cell's point names the record of four,
/// and the parities of the position pick one of them. A point that names no
/// record leaves its cells blank.
pub open spec fn move_cell_spec(
    data: Seq<u8>,
    points: Seq<CompilePoint>,
    size_x: int,
    mx: int,
    my: int,
) -> MoveCell {
    let mi = points[(my / 2) * (size_x + 1) + mx / 2].move_idx;
    if mi < 0 || mi >= data.len() / (MOVE_CELL_SIZE as nat) {
        no_cell()
    } else {
        move_at(data, MOVE_CELL_SIZE * mi + 16 * (mx % 2 + 2 * (my % 2)))
    }
}

pub open spec fn move_cells_of(
    data: Seq<u8>,
    points: Seq<CompilePoint>,
    size_x: int,
    size_y: int,
) -> Seq<MoveCell> {
    grid(2 * size_x, 2 * size_y, |mx: int, my: int| move_cell_spec(data, points, size_x, mx, my))
}

fn read_move(bytes: &[u8], off: usize) -> (c: MoveCell)
    requires
        off + 16 <= bytes@.len(),
    ensures
        c == move_at(bytes@, off as int),
{
    let _len = bytes.len();
    MoveCell {
        zone: get_i32(bytes, off),
        stop: get_u32(bytes, off + 4),
        sphere: get_u32(bytes, off + 8),
        zubchik: get_u32(bytes, off + 12),
    }
}

/// The movement grid, two by two cells for each map cell. A map without
/// movement data passes an empty buffer and gets a blank grid.
pub fn load_move_cells(
    data: &Vec<u8>,
    points: &Vec<CompilePoint>,
    size_x: usize,
    size_y: usize,
) -> (r: Vec<MoveCell>)
    requires
        size_x <= i32::MAX,
        size_y <= i32::MAX,
        points@.len() == (size_x + 1) * (size_y + 1),
    ensures
        r@ == move_cells_of(data@, points@, size_x as int, size_y as int),
{
    let len = points.len();
    let stride = size_x + 1;
    let w: u64 = 2 * (size_x as u64);
    let h: u64 = 2 * (size_y as u64);
    let bytes = data.as_slice();
    let dlen = data.len();
    let count = dlen / MOVE_CELL_SIZE;
    let ghost goal = move_cells_of(data@, points@, size_x as int, size_y as int);
    let mut r: Vec<MoveCell> = Vec::new();
    let mut my: u64 = 0;
    assert(0 * w == 0) by (nonlinear_arith);
    while my < h
        invariant
            len == points@.len(),
            stride == size_x + 1,
            size_x <= i32::MAX,
            size_y <= i32::MAX,
            w == 2 * size_x,
            h == 2 * size_y,
            len == stride * (size_y + 1),
            bytes@ == data@,
            dlen == data@.len(),
            count == data@.len() / (MOVE_CELL_SIZE as nat),
            goal == move_cells_of(data@, points@, size_x as int, size_y as int),
            my <= h,
            r@.len() == my * w,
            forall|k: int| 0 <= k < r@.len() ==> r@[k] == goal[k],
        decreases h - my,
    {
        let mut mx: u64 = 0;
        while mx < w
            invariant
                len == points@.len(),
                stride == size_x + 1,
                size_x <= i32::MAX,
                size_y <= i32::MAX,
                w == 2 * size_x,
                h == 2 * size_y,
                len == stride * (size_y + 1),
                bytes@ == data@,
                dlen == data@.len(),
                count == data@.len() / (MOVE_CELL_SIZE as nat),
                goal == move_cells_of(data@, points@, size_x as int, size_y as int),
                my < h,
                mx <= w,
                r@.len() == my * w + mx,
                forall|k: int| 0 <= k < r@.len() ==> r@[k] == goal[k],
            decreases w - mx,
        {
            let x = (mx / 2) as usize;
            let y = (my / 2) as usize;
            proof {
                lemma_cell_index(x as int, y as int, stride as int, size_y + 1);
            }
            let mi = points[cell_index(x, y, stride, len)].move_idx;
            let cell = if mi < 0 || mi as usize >= count {
                MoveCell { zone: 0, sphere: 0, zubchik: 0, stop: 0 }
            } else {
                let sub = (mx % 2 + 2 * (my % 2)) as usize;
                assert(MOVE_CELL_SIZE * mi + MOVE_CELL_SIZE <= data@.len());
                read_move(bytes, MOVE_CELL_SIZE * (mi as usize) + 16 * sub)
            };
            proof {
                lemma_grid_at(
                    w as int,
                    h as int,
                    |mx: int, my: int| move_cell_spec(data@, points@, size_x as int, mx, my),
                    mx as int,
                    my as int,
                );
            }
            r.push(cell);
            mx = mx + 1;
        }
        proof {
            assert(my * w + w == (my + 1) * w) by (nonlinear_arith);
        }
        my = my + 1;
    }
    proof {
        assert(my * w == w * h) by (nonlinear_arith)
            requires
                my == h,
        ;
        assert(r@ =~= goal);
    }
    r
}

// ── Bridges ─────────────────────────────────────────────────────────────
/// A bridge record that is put down: a rectangle of points, and a deck height
/// for each.
pub struct Deck {
    pub left: int,
    pub top: int,
    pub right: int,
    pub bottom: int,
    pub z: Seq<u32>,
}

impl Deck {
    /// The deck height at a point of the rectangle.
    pub open spec fn at(self, x: int, y: int) -> u32 {
        self.z[(y - self.top) * (self.right - self.left) + (x - self.left)]
    }
}

/// The deck that a bridge record describes. Records that are too short, empty,
/// off the map or without a height for every point describe none.
pub open spec fn deck_of(s: Seq<u8>, size_x: int, size_y: int) -> Option<Deck> {
    if s.len() < 16 {
        None
    } else {
        let left = i32_at(s, 0);
        let top = i32_at(s, 4);
        let right = i32_at(s, 8);
        let bottom = i32_at(s, 12);
        let z = u32_array(s.subrange(16, s.len() as int));
        if left < 0 || top < 0 || right <= left || bottom <= top || right > size_x + 1 || bottom
            > size_y + 1 || z.len() < (right - left) * (bottom - top) {
            None
        } else {
            Some(
                Deck {
                    left: left as int,
                    top: top as int,
                    right: right as int,
                    bottom: bottom as int,
                    z,
                },
            )
        }
    }
}

/// The points of one row with the deck put down.
pub open spec fn deck_row_points(
    points: Seq<CompilePoint>,
    stride: int,
    d: Deck,
    y: int,
    upto: int,
) -> Seq<CompilePoint> {
    Seq::new(
        points.len(),
        |k: int|
            {
                let x = k - y * stride;
                if d.left <= x < upto {
                    CompilePoint { z: d.at(x, y), ..points[k] }
                } else {
                    points[k]
                }
            },
    )
}

/// A cell under the deck: a bridge, flat exactly when the deck is.
pub open spec fn deck_unit(u: MapUnit, d: Deck, x: int, y: int) -> MapUnit {
    let z0 = d.at(x, y);
    let z1 = d.at(x + 1, y);
    let z2 = d.at(x + 1, y + 1);
    let z3 = d.at(x, y + 1);
    if float_bits::eq_spec(z0, z1) && float_bits::eq_spec(z0, z2) && float_bits::eq_spec(z0, z3) {
        MapUnit {
            flags: u.flags | CELLFLAG_BRIDGE | CELLFLAG_FLAT,
            plane: UnitPlane::Flat { z: z0 },
        }
    } else {
        MapUnit {
            flags: (u.flags | CELLFLAG_BRIDGE) & !CELLFLAG_FLAT,
            plane: UnitPlane::Corners { z0, z1, z2, z3 },
        }
    }
}

/// The cells of one row with the deck put down.
pub open spec fn deck_row_units(
    units: Seq<MapUnit>,
    size_x: int,
    d: Deck,
    y: int,
    upto: int,
) -> Seq<MapUnit> {
    Seq::new(
        units.len(),
        |k: int|
            {
                let x = k - y * size_x;
                if d.left <= x < upto && x + 1 < d.right && y + 1 < d.bottom {
                    deck_unit(units[k], d, x, y)
                } else {
                    units[k]
                }
            },
    )
}

/// Points after the first `n` rows of a deck.
pub open spec fn deck_points(
    points: Seq<CompilePoint>,
    size_x: int,
    d: Deck,
    n: int,
) -> Seq<CompilePoint>
    decreases n,
{
    if n <= 0 {
        points
    } else {
        deck_row_points(
            deck_points(points, size_x, d, n - 1),
            size_x + 1,
            d,
            d.top + n - 1,
            d.right,
        )
    }
}

/// Cells after the first `n` rows of a deck.
pub open spec fn deck_units(units: Seq<MapUnit>, size_x: int, d: Deck, n: int) -> Seq<MapUnit>
    decreases n,
{
    if n <= 0 {
        units
    } else {
        deck_row_units(deck_units(units, size_x, d, n - 1), size_x, d, d.top + n - 1, d.right)
    }
}

/// Points and cells after the first `n` bridge records.
pub open spec fn bridged(
    recs: Seq<Seq<u8>>,
    points: Seq<CompilePoint>,
    units: Seq<MapUnit>,
    size_x: int,
    size_y: int,
    n: int,
) -> (Seq<CompilePoint>, Seq<MapUnit>)
    decreases n,
{
    if n <= 0 {
        (points, units)
    } else {
        let b = bridged(recs, points, units, size_x, size_y, n - 1);
        match deck_of(recs[n - 1], size_x, size_y) {
            None => b,
            Some(d) => (
                deck_points(b.0, size_x, d, d.bottom - d.top),
                deck_units(b.1, size_x, d, d.bottom - d.top),
            ),
        }
    }
}

/// Byte buffers as sequences.
pub open spec fn buffers(v: Seq<Vec<u8>>) -> Seq<Seq<u8>> {
    Seq::new(v.len(), |i: int| v[i]@)
}

fn put_deck_row(
    points: &mut Vec<CompilePoint>,
    units: &mut Vec<MapUnit>,
    size_x: usize,
    size_y: usize,
    rect: (usize, usize, usize, usize),
    z: &Vec<u32>,
    y: usize,
)
    requires
        size_x <= i32::MAX,
        size_y <= i32::MAX,
        old(points)@.len() == (size_x + 1) * (size_y + 1),
        old(units)@.len() == size_x * size_y,
        rect.0 < rect.2 <= size_x + 1,
        rect.1 <= y < rect.3 <= size_y + 1,
        z@.len() >= (rect.2 - rect.0) * (rect.3 - rect.1),
    ensures
        ({
            let d = Deck {
                left: rect.0 as int,
                top: rect.1 as int,
                right: rect.2 as int,
                bottom: rect.3 as int,
                z: z@,
            };
            &&& final(points)@ == deck_row_points(
                old(points)@,
                size_x + 1,
                d,
                y as int,
                rect.2 as int,
            )
            &&& final(units)@ == deck_row_units(
                old(units)@,
                size_x as int,
                d,
                y as int,
                rect.2 as int,
            )
        }),
{
    let (left, top, right, bottom) = rect;
    let ghost d = Deck {
        left: left as int,
        top: top as int,
        right: right as int,
        bottom: bottom as int,
        z: z@,
    };
    let ghost p0 = points@;
    let ghost u0 = units@;
    let dx = right - left;
    let zlen = z.len();
    let plen = points.len();
    let ulen = units.len();
    let row = y - top;
    let mut x: usize = left;
    assert(deck_row_points(p0, size_x + 1, d, y as int, left as int) =~= p0);
    assert(deck_row_units(u0, size_x as int, d, y as int, left as int) =~= u0);
    while x < right
        invariant
            size_x <= i32::MAX,
            size_y <= i32::MAX,
            plen == (size_x + 1) * (size_y + 1),
            ulen == size_x * size_y,
            points@.len() == plen,
            units@.len() == ulen,
            p0.len() == plen,
            u0.len() == ulen,
            left < right <= size_x + 1,
            top <= y < bottom <= size_y + 1,
            dx == right - left,
            row == y - top,
            zlen == z@.len(),
            zlen >= dx * (bottom - top),
            d == (Deck {
                left: left as int,
                top: top as int,
                right: right as int,
                bottom: bottom as int,
                z: z@,
            }),
            left <= x <= right,
            points@ == deck_row_points(p0, size_x + 1, d, y as int, x as int),
            units@ == deck_row_units(u0, size_x as int, d, y as int, x as int),
        decreases right - x,
    {
        let col = x - left;
        proof {
            lemma_cell_index(col as int, row as int, dx as int, bottom - top);
            lemma_cell_index(x as int, y as int, size_x + 1, size_y + 1);
        }
        let zi = cell_index(col, row, dx, zlen);
        let z0 = z[zi];
        if x + 1 < right && y + 1 < bottom {
            proof {
                lemma_cell_index(x as int, y as int, size_x as int, size_y as int);
                lemma_cell_index(col + 1, row as int, dx as int, bottom - top);
                lemma_cell_index(col as int, row + 1, dx as int, bottom - top);
                lemma_cell_index(col + 1, row + 1, dx as int, bottom - top);
            }
            let z1 = z[cell_index(col + 1, row, dx, zlen)];
            let z2 = z[cell_index(col + 1, row + 1, dx, zlen)];
            let z3 = z[cell_index(col, row + 1, dx, zlen)];
            let ui = cell_index(x, y, size_x, ulen);
            let flags = units[ui].flags | CELLFLAG_BRIDGE;
            let unit = if float_bits::eq(z0, z1) && float_bits::eq(z0, z2) && float_bits::eq(
                z0,
                z3,
            ) {
                MapUnit { flags: flags | CELLFLAG_FLAT, plane: UnitPlane::Flat { z: z0 } }
            } else {
                MapUnit {
                    flags: flags & !CELLFLAG_FLAT,
                    plane: UnitPlane::Corners { z0, z1, z2, z3 },
                }
            };
            assert(unit == deck_unit(u0[ui as int], d, x as int, y as int));
            units.set(ui, unit);
        }
        let pi = cell_index(x, y, size_x + 1, plen);
        let mut p = points[pi];
        p.z = z0;
        points.set(pi, p);
        x = x + 1;
        assert(points@ =~= deck_row_points(p0, size_x + 1, d, y as int, x as int));
        assert(units@ =~= deck_row_units(u0, size_x as int, d, y as int, x as int));
    }
}

fn put_deck(
    points: &mut Vec<CompilePoint>,
    units: &mut Vec<MapUnit>,
    size_x: usize,
    size_y: usize,
    rect: (usize, usize, usize, usize),
    z: &Vec<u32>,
)
    requires
        size_x <= i32::MAX,
        size_y <= i32::MAX,
        old(points)@.len() == (size_x + 1) * (size_y + 1),
        old(units)@.len() == size_x * size_y,
        rect.0 < rect.2 <= size_x + 1,
        rect.1 < rect.3 <= size_y + 1,
        z@.len() >= (rect.2 - rect.0) * (rect.3 - rect.1),
    ensures
        final(points)@.len() == old(points)@.len(),
        final(units)@.len() == old(units)@.len(),
        ({
            let d = Deck {
                left: rect.0 as int,
                top: rect.1 as int,
                right: rect.2 as int,
                bottom: rect.3 as int,
                z: z@,
            };
            &&& final(points)@ == deck_points(
                old(points)@,
                size_x as int,
                d,
                rect.3 - rect.1,
            )
            &&& final(units)@ == deck_units(old(units)@, size_x as int, d, rect.3 - rect.1)
        }),
{
    let ghost d = Deck {
        left: rect.0 as int,
        top: rect.1 as int,
        right: rect.2 as int,
        bottom: rect.3 as int,
        z: z@,
    };
    let ghost p0 = points@;
    let ghost u0 = units@;
    let mut y: usize = rect.1;
    while y < rect.3
        invariant
            size_x <= i32::MAX,
            size_y <= i32::MAX,
            points@.len() == (size_x + 1) * (size_y + 1),
            units@.len() == size_x * size_y,
            points@.len() == p0.len(),
            units@.len() == u0.len(),
            rect.0 < rect.2 <= size_x + 1,
            rect.1 < rect.3 <= size_y + 1,
            z@.len() >= (rect.2 - rect.0) * (rect.3 - rect.1),
            d == (Deck {
                left: rect.0 as int,
                top: rect.1 as int,
                right: rect.2 as int,
                bottom: rect.3 as int,
                z: z@,
            }),
            rect.1 <= y <= rect.3,
            points@ == deck_points(p0, size_x as int, d, y - rect.1),
            units@ == deck_units(u0, size_x as int, d, y - rect.1),
        decreases rect.3 - y,
    {
        put_deck_row(points, units, size_x, size_y, rect, z, y);
        y = y + 1;
    }
}

/// Put the bridges down: points under a deck take its height, cells under it
/// become bridges. Records that describe no deck are passed over.
pub fn load_bridges(
    recs: &Vec<Vec<u8>>,
    points: &mut Vec<CompilePoint>,
    units: &mut Vec<MapUnit>,
    size_x: usize,
    size_y: usize,
)
    requires
        size_x <= i32::MAX,
        size_y <= i32::MAX,
        old(points)@.len() == (size_x + 1) * (size_y + 1),
        old(units)@.len() == size_x * size_y,
    ensures
        final(points)@.len() == old(points)@.len(),
        final(units)@.len() == old(units)@.len(),
        (final(points)@, final(units)@) == bridged(
            buffers(recs@),
            old(points)@,
            old(units)@,
            size_x as int,
            size_y as int,
            recs@.len() as int,
        ),
{
    let ghost p0 = points@;
    let ghost u0 = units@;
    let ghost bufs = buffers(recs@);
    let mut i: usize = 0;
    while i < recs.len()
        invariant
            size_x <= i32::MAX,
            size_y <= i32::MAX,
            points@.len() == (size_x + 1) * (size_y + 1),
            units@.len() == size_x * size_y,
            points@.len() == p0.len(),
            units@.len() == u0.len(),
            bufs == buffers(recs@),
            i <= recs@.len(),
            (points@, units@) == bridged(
                bufs,
                p0,
                u0,
                size_x as int,
                size_y as int,
                i as int,
            ),
        decreases recs.len() - i,
    {
        let bytes = recs[i].as_slice();
        assert(bytes@ == bufs[i as int]);
        i = i + 1;
        if bytes.len() < 16 {
            continue;
        }
        let left = get_i32(bytes, 0);
        let top = get_i32(bytes, 4);
        let right = get_i32(bytes, 8);
        let bottom = get_i32(bytes, 12);
        if left < 0 || top < 0 || right <= left || bottom <= top {
            continue;
        }
        let z = read_f32_array(vstd::slice::slice_subrange(bytes, 16, bytes.len()));
        let dx: u64 = (right - left) as u64;
        let dy: u64 = (bottom - top) as u64;
        proof {
            assert(dx * dy <= 0x7fff_ffff * 0x7fff_ffff) by (nonlinear_arith)
                requires
                    0 <= dx <= 0x7fff_ffff,
                    0 <= dy <= 0x7fff_ffff,
            ;
        }
        if right as usize > size_x + 1 || bottom as usize > size_y + 1 || (z.len() as u64) < dx
            * dy {
            continue;
        }
        put_deck(
            points,
            units,
            size_x,
            size_y,
            (left as usize, top as usize, right as usize, bottom as usize),
            &z,
        );
    }
}

/// A deck changes exactly the points that it covers: they take its height and
/// keep the rest.
pub proof fn law_deck_covers(
    points: Seq<CompilePoint>,
    size_x: int,
    size_y: int,
    d: Deck,
    n: int,
    x: int,
    y: int,
)
    requires
        0 <= x <= size_x,
        0 <= y <= size_y,
        points.len() == (size_x + 1) * (size_y + 1),
        0 <= d.left,
        d.right <= size_x + 1,
        0 <= n,
    ensures
        deck_points(points, size_x, d, n).len() == points.len(),
        0 <= y * (size_x + 1) + x < points.len(),
        deck_points(points, size_x, d, n)[y * (size_x + 1) + x] == if d.left <= x < d.right && d.top
            <= y < d.top + n {
            CompilePoint { z: d.at(x, y), ..points[y * (size_x + 1) + x] }
        } else {
            points[y * (size_x + 1) + x]
        },
    decreases n,
{
    lemma_cell_index(x, y, size_x + 1, size_y + 1);
    if n > 0 {
        law_deck_covers(points, size_x, size_y, d, n - 1, x, y);
        let w = size_x + 1;
        let r = d.top + n - 1;
        let k = y * w + x;
        if r == y {
        } else if d.left <= k - r * w < d.right {
            assert(r == y) by (nonlinear_arith)
                requires
                    0 <= k - r * w < w,
                    k == y * w + x,
                    0 <= x < w,
            ;
        }
    }
}

// ── Groups ──────────────────────────────────────────────────────────────
/// The lowest of the first `n` heights, infinity when there is none below it.
pub open spec fn lowest(zs: Seq<u32>, n: int) -> u32
    decreases n,
{
    if n <= 0 {
        INFINITY
    } else {
        let m = lowest(zs, n - 1);
        if float_bits::lt_spec(zs[n - 1], m) {
            zs[n - 1]
        } else {
            m
        }
    }
}

/// The highest of the first `n` heights.
pub open spec fn highest(zs: Seq<u32>, n: int) -> u32
    decreases n,
{
    if n <= 0 {
        NEG_INFINITY
    } else {
        let m = highest(zs, n - 1);
        if float_bits::lt_spec(m, zs[n - 1]) {
            zs[n - 1]
        } else {
            m
        }
    }
}

pub open spec fn is_finite_spec(b: u32) -> bool {
    float_bits::magnitude(b) < 0x7f80_0000
}

fn is_finite(b: u32) -> (r: bool)
    ensures
        r == is_finite_spec(b),
{
    if b < 0x8000_0000 {
        b < 0x7f80_0000
    } else {
        b - 0x8000_0000 < 0x7f80_0000
    }
}

fn lowest_of(zs: &Vec<u32>) -> (m: u32)
    ensures
        m == lowest(zs@, zs@.len() as int),
{
    let mut m: u32 = INFINITY;
    let mut i: usize = 0;
    while i < zs.len()
        invariant
            i <= zs@.len(),
            m == lowest(zs@, i as int),
        decreases zs.len() - i,
    {
        if float_bits::lt(zs[i], m) {
            m = zs[i];
        }
        i = i + 1;
    }
    m
}

fn highest_of(zs: &Vec<u32>) -> (m: u32)
    ensures
        m == highest(zs@, zs@.len() as int),
{
    let mut m: u32 = NEG_INFINITY;
    let mut i: usize = 0;
    while i < zs.len()
        invariant
            i <= zs@.len(),
            m == highest(zs@, i as int),
        decreases zs.len() - i,
    {
        if float_bits::lt(m, zs[i]) {
            m = zs[i];
        }
        i = i + 1;
    }
    m
}

/// The heights of `n` points of a row.
pub open spec fn row_heights(points: Seq<CompilePoint>, stride: int, x0: int, y: int, n: int) -> Seq<
    u32,
> {
    Seq::new(n as nat, |i: int| points[y * stride + x0 + i].z)
}

/// The heights of the first `n` rows of a rectangle of points.
pub open spec fn rect_heights(
    points: Seq<CompilePoint>,
    stride: int,
    x0: int,
    x1: int,
    y0: int,
    n: int,
) -> Seq<u32>
    decreases n,
{
    if n <= 0 {
        Seq::empty()
    } else {
        rect_heights(points, stride, x0, x1, y0, n - 1) + row_heights(
            points,
            stride,
            x0,
            y0 + n - 1,
            x1 - x0 + 1,
        )
    }
}

pub open spec fn min_int(a: int, b: int) -> int {
    if a <= b {
        a
    } else {
        b
    }
}

/// All heights of a group, its far edge included.
pub open spec fn group_heights(
    points: Seq<CompilePoint>,
    size_x: int,
    size_y: int,
    gx: int,
    gy: int,
) -> Seq<u32> {
    let x0 = gx * MAP_GROUP_SIZE;
    let y0 = gy * MAP_GROUP_SIZE;
    let x1 = min_int(x0 + MAP_GROUP_SIZE, size_x);
    let y1 = min_int(y0 + MAP_GROUP_SIZE, size_y);
    rect_heights(points, size_x + 1, x0, x1, y0, y1 - y0 + 1)
}

/// The vertical extent of a group; zero when its lowest point is no number
/// that a height can be.
pub open spec fn bounds_of(zs: Seq<u32>) -> GroupBounds {
    if is_finite_spec(lowest(zs, zs.len() as int)) {
        GroupBounds {
            min_z: lowest(zs, zs.len() as int),
            max_z: highest(zs, zs.len() as int),
        }
    } else {
        GroupBounds { min_z: float_bits::ZERO, max_z: float_bits::ZERO }
    }
}

fn collect_heights(
    points: &Vec<CompilePoint>,
    size_x: usize,
    size_y: usize,
    gx: usize,
    gy: usize,
) -> (zs: Vec<u32>)
    requires
        size_x <= i32::MAX,
        size_y <= i32::MAX,
        points@.len() == (size_x + 1) * (size_y + 1),
        gx * MAP_GROUP_SIZE <= size_x,
        gy * MAP_GROUP_SIZE <= size_y,
    ensures
        zs@ == group_heights(points@, size_x as int, size_y as int, gx as int, gy as int),
{
    let len = points.len();
    let stride = size_x + 1;
    let x0 = gx * MAP_GROUP_SIZE;
    let y0 = gy * MAP_GROUP_SIZE;
    let x1 = if size_x - x0 < MAP_GROUP_SIZE {
        size_x
    } else {
        x0 + MAP_GROUP_SIZE
    };
    let y1 = if size_y - y0 < MAP_GROUP_SIZE {
        size_y
    } else {
        y0 + MAP_GROUP_SIZE
    };
    let mut zs: Vec<u32> = Vec::new();
    let mut y: usize = y0;
    while y <= y1
        invariant
            size_x <= i32::MAX,
            size_y <= i32::MAX,
            stride == size_x + 1,
            len == points@.len(),
            len == stride * (size_y + 1),
            x0 <= x1 <= size_x,
            y0 <= y1 <= size_y,
            y0 <= y <= y1 + 1,
            zs@ == rect_heights(
                points@,
                stride as int,
                x0 as int,
                x1 as int,
                y0 as int,
                y - y0,
            ),
        decreases y1 + 1 - y,
    {
        let ghost before = zs@;
        let mut x: usize = x0;
        assert(before + row_heights(points@, stride as int, x0 as int, y as int, 0) =~= before);
        while x <= x1
            invariant
                size_x <= i32::MAX,
                size_y <= i32::MAX,
                stride == size_x + 1,
                len == points@.len(),
                len == stride * (size_y + 1),
                x0 <= x1 <= size_x,
                y <= size_y,
                x0 <= x <= x1 + 1,
                zs@ =~= before + row_heights(
                    points@,
                    stride as int,
                    x0 as int,
                    y as int,
                    x - x0,
                ),
            decreases x1 + 1 - x,
        {
            proof {
                lemma_cell_index(x as int, y as int, stride as int, size_y + 1);
            }
            zs.push(points[cell_index(x, y, stride, len)].z);
            x = x + 1;
        }
        y = y + 1;
    }
    zs
}

pub open spec fn group_bounds_of(points: Seq<CompilePoint>, size_x: int, size_y: int) -> Seq<
    GroupBounds,
> {
    grid(
        groups_over(size_x),
        groups_over(size_y),
        |gx: int, gy: int| bounds_of(group_heights(points, size_x, size_y, gx, gy)),
    )
}

fn div_ceil_group(n: usize) -> (g: usize)
    requires
        n <= i32::MAX,
    ensures
        g == groups_over(n as int),
        forall|i: int| 0 <= i < g ==> #[trigger] (i * MAP_GROUP_SIZE) < n,
{
    (n + MAP_GROUP_SIZE - 1) / MAP_GROUP_SIZE
}

/// The vertical extent of every group.
pub fn compute_group_bounds(points: &Vec<CompilePoint>, size_x: usize, size_y: usize) -> (r: Vec<
    GroupBounds,
>)
    requires
        size_x <= i32::MAX,
        size_y <= i32::MAX,
        points@.len() == (size_x + 1) * (size_y + 1),
    ensures
        r@ == group_bounds_of(points@, size_x as int, size_y as int),
{
    let gw = div_ceil_group(size_x);
    let gh = div_ceil_group(size_y);
    let ghost goal = group_bounds_of(points@, size_x as int, size_y as int);
    let mut r: Vec<GroupBounds> = Vec::new();
    let mut gy: usize = 0;
    assert(0 * gw == 0) by (nonlinear_arith);
    while gy < gh
        invariant
            size_x <= i32::MAX,
            size_y <= i32::MAX,
            points@.len() == (size_x + 1) * (size_y + 1),
            gw == groups_over(size_x as int),
            gh == groups_over(size_y as int),
            forall|i: int| 0 <= i < gw ==> #[trigger] (i * MAP_GROUP_SIZE) < size_x,
            forall|i: int| 0 <= i < gh ==> #[trigger] (i * MAP_GROUP_SIZE) < size_y,
            goal == group_bounds_of(points@, size_x as int, size_y as int),
            gy <= gh,
            r@.len() == gy * gw,
            forall|k: int| 0 <= k < r@.len() ==> r@[k] == goal[k],
        decreases gh - gy,
    {
        let mut gx: usize = 0;
        while gx < gw
            invariant
                size_x <= i32::MAX,
                size_y <= i32::MAX,
                points@.len() == (size_x + 1) * (size_y + 1),
                gw == groups_over(size_x as int),
                gh == groups_over(size_y as int),
                forall|i: int| 0 <= i < gw ==> #[trigger] (i * MAP_GROUP_SIZE) < size_x,
                forall|i: int| 0 <= i < gh ==> #[trigger] (i * MAP_GROUP_SIZE) < size_y,
                goal == group_bounds_of(points@, size_x as int, size_y as int),
                gy < gh,
                gx <= gw,
                r@.len() == gy * gw + gx,
                forall|k: int| 0 <= k < r@.len() ==> r@[k] == goal[k],
            decreases gw - gx,
        {
            let zs = collect_heights(points, size_x, size_y, gx, gy);
            let mn = lowest_of(&zs);
            let mx = highest_of(&zs);
            let b = if is_finite(mn) {
                GroupBounds { min_z: mn, max_z: mx }
            } else {
                GroupBounds { min_z: float_bits::ZERO, max_z: float_bits::ZERO }
            };
            proof {
                lemma_grid_at(
                    gw as int,
                    gh as int,
                    |gx: int, gy: int|
                        bounds_of(
                            group_heights(points@, size_x as int, size_y as int, gx, gy),
                        ),
                    gx as int,
                    gy as int,
                );
            }
            r.push(b);
            gx = gx + 1;
        }
        proof {
            assert(gy * gw + gw == (gy + 1) * gw) by (nonlinear_arith);
        }
        gy = gy + 1;
    }
    proof {
        assert(gy * gw == gw * gh) by (nonlinear_arith)
            requires
                gy == gh,
        ;
        assert(r@ =~= goal);
    }
    r
}

/// The corner heights of the land among the first `n` cells of a row.
pub open spec fn land_row(
    points: Seq<CompilePoint>,
    units: Seq<MapUnit>,
    size_x: int,
    x0: int,
    y: int,
    n: int,
) -> Seq<u32>
    decreases n,
{
    if n <= 0 {
        Seq::empty()
    } else {
        let x = x0 + n - 1;
        let before = land_row(points, units, size_x, x0, y, n - 1);
        if units[y * size_x + x].flags & CELLFLAG_LAND != 0 {
            before.push(points[y * (size_x + 1) + x].z).push(
                points[y * (size_x + 1) + (x + 1)].z,
            ).push(points[(y + 1) * (size_x + 1) + x].z).push(
                points[(y + 1) * (size_x + 1) + (x + 1)].z,
            )
        } else {
            before
        }
    }
}

/// The corner heights of the land in the first `n` rows of a group.
pub open spec fn land_rect(
    points: Seq<CompilePoint>,
    units: Seq<MapUnit>,
    size_x: int,
    x0: int,
    x1: int,
    y0: int,
    n: int,
) -> Seq<u32>
    decreases n,
{
    if n <= 0 {
        Seq::empty()
    } else {
        land_rect(points, units, size_x, x0, x1, y0, n - 1) + land_row(
            points,
            units,
            size_x,
            x0,
            y0 + n - 1,
            x1 - x0,
        )
    }
}

pub open spec fn land_heights(
    points: Seq<CompilePoint>,
    units: Seq<MapUnit>,
    size_x: int,
    size_y: int,
    gx: int,
    gy: int,
) -> Seq<u32> {
    let x0 = gx * MAP_GROUP_SIZE;
    let y0 = gy * MAP_GROUP_SIZE;
    let x1 = min_int(x0 + MAP_GROUP_SIZE, size_x);
    let y1 = min_int(y0 + MAP_GROUP_SIZE, size_y);
    land_rect(points, units, size_x, x0, x1, y0, y1 - y0)
}

/// The highest land, never below zero; zero without land.
pub open spec fn land_top(zs: Seq<u32>) -> u32 {
    let m = highest(zs, zs.len() as int);
    if is_finite_spec(m) && float_bits::lt_spec(float_bits::ZERO, m) {
        m
    } else {
        float_bits::ZERO
    }
}

pub open spec fn group_tops_of(
    points: Seq<CompilePoint>,
    units: Seq<MapUnit>,
    size_x: int,
    size_y: int,
) -> Seq<u32> {
    grid(
        groups_over(size_x),
        groups_over(size_y),
        |gx: int, gy: int| land_top(land_heights(points, units, size_x, size_y, gx, gy)),
    )
}

fn collect_land(
    points: &Vec<CompilePoint>,
    units: &Vec<MapUnit>,
    size_x: usize,
    size_y: usize,
    gx: usize,
    gy: usize,
) -> (zs: Vec<u32>)
    requires
        size_x <= i32::MAX,
        size_y <= i32::MAX,
        points@.len() == (size_x + 1) * (size_y + 1),
        units@.len() == size_x * size_y,
        gx * MAP_GROUP_SIZE <= size_x,
        gy * MAP_GROUP_SIZE <= size_y,
    ensures
        zs@ == land_heights(
            points@,
            units@,
            size_x as int,
            size_y as int,
            gx as int,
            gy as int,
        ),
{
    let len = points.len();
    let ulen = units.len();
    let stride = size_x + 1;
    let x0 = gx * MAP_GROUP_SIZE;
    let y0 = gy * MAP_GROUP_SIZE;
    let x1 = if size_x - x0 < MAP_GROUP_SIZE {
        size_x
    } else {
        x0 + MAP_GROUP_SIZE
    };
    let y1 = if size_y - y0 < MAP_GROUP_SIZE {
        size_y
    } else {
        y0 + MAP_GROUP_SIZE
    };
    let mut zs: Vec<u32> = Vec::new();
    let mut y: usize = y0;
    while y < y1
        invariant
            size_x <= i32::MAX,
            size_y <= i32::MAX,
            stride == size_x + 1,
            len == points@.len(),
            len == stride * (size_y + 1),
            ulen == units@.len(),
            ulen == size_x * size_y,
            x0 <= x1 <= size_x,
            y0 <= y1 <= size_y,
            y0 <= y <= y1,
            zs@ == land_rect(
                points@,
                units@,
                size_x as int,
                x0 as int,
                x1 as int,
                y0 as int,
                y - y0,
            ),
        decreases y1 - y,
    {
        let ghost before = zs@;
        let mut x: usize = x0;
        assert(before + Seq::<u32>::empty() =~= before);
        while x < x1
            invariant
                size_x <= i32::MAX,
                size_y <= i32::MAX,
                stride == size_x + 1,
                len == points@.len(),
                len == stride * (size_y + 1),
                ulen == units@.len(),
                ulen == size_x * size_y,
                x0 <= x1 <= size_x,
                y < size_y,
                x0 <= x <= x1,
                zs@ == before + land_row(
                    points@,
                    units@,
                    size_x as int,
                    x0 as int,
                    y as int,
                    x - x0,
                ),
            decreases x1 - x,
        {
            proof {
                lemma_cell_index(x as int, y as int, size_x as int, size_y as int);
                lemma_cell_index(x as int, y as int, stride as int, size_y + 1);
                lemma_cell_index(x + 1, y as int, stride as int, size_y + 1);
                lemma_cell_index(x as int, y + 1, stride as int, size_y + 1);
                lemma_cell_index(x + 1, y + 1, stride as int, size_y + 1);
            }
            let ghost r = land_row(
                points@,
                units@,
                size_x as int,
                x0 as int,
                y as int,
                x - x0,
            );
            if units[cell_index(x, y, size_x, ulen)].flags & CELLFLAG_LAND != 0 {
                zs.push(points[cell_index(x, y, stride, len)].z);
                zs.push(points[cell_index(x + 1, y, stride, len)].z);
                zs.push(points[cell_index(x, y + 1, stride, len)].z);
                zs.push(points[cell_index(x + 1, y + 1, stride, len)].z);
            }
            x = x + 1;
            assert(zs@ =~= before + land_row(
                points@,
                units@,
                size_x as int,
                x0 as int,
                y as int,
                x - x0,
            ));
        }
        y = y + 1;
    }
    zs
}

/// The highest land of every group.
pub fn compute_group_max_z_land(
    points: &Vec<CompilePoint>,
    units: &Vec<MapUnit>,
    size_x: usize,
    size_y: usize,
) -> (r: (Vec<u32>, usize, usize))
    requires
        size_x <= i32::MAX,
        size_y <= i32::MAX,
        points@.len() == (size_x + 1) * (size_y + 1),
        units@.len() == size_x * size_y,
    ensures
        r.0@ == group_tops_of(points@, units@, size_x as int, size_y as int),
        r.1 == groups_over(size_x as int),
        r.2 == groups_over(size_y as int),
{
    let gw = div_ceil_group(size_x);
    let gh = div_ceil_group(size_y);
    let ghost goal = group_tops_of(points@, units@, size_x as int, size_y as int);
    let mut r: Vec<u32> = Vec::new();
    let mut gy: usize = 0;
    assert(0 * gw == 0) by (nonlinear_arith);
    while gy < gh
        invariant
            size_x <= i32::MAX,
            size_y <= i32::MAX,
            points@.len() == (size_x + 1) * (size_y + 1),
            units@.len() == size_x * size_y,
            gw == groups_over(size_x as int),
            gh == groups_over(size_y as int),
            forall|i: int| 0 <= i < gw ==> #[trigger] (i * MAP_GROUP_SIZE) < size_x,
            forall|i: int| 0 <= i < gh ==> #[trigger] (i * MAP_GROUP_SIZE) < size_y,
            goal == group_tops_of(points@, units@, size_x as int, size_y as int),
            gy <= gh,
            r@.len() == gy * gw,
            forall|k: int| 0 <= k < r@.len() ==> r@[k] == goal[k],
        decreases gh - gy,
    {
        let mut gx: usize = 0;
        while gx < gw
            invariant
                size_x <= i32::MAX,
                size_y <= i32::MAX,
                points@.len() == (size_x + 1) * (size_y + 1),
                units@.len() == size_x * size_y,
                gw == groups_over(size_x as int),
                gh == groups_over(size_y as int),
                forall|i: int| 0 <= i < gw ==> #[trigger] (i * MAP_GROUP_SIZE) < size_x,
                forall|i: int| 0 <= i < gh ==> #[trigger] (i * MAP_GROUP_SIZE) < size_y,
                goal == group_tops_of(points@, units@, size_x as int, size_y as int),
                gy < gh,
                gx <= gw,
                r@.len() == gy * gw + gx,
                forall|k: int| 0 <= k < r@.len() ==> r@[k] == goal[k],
            decreases gw - gx,
        {
            let zs = collect_land(points, units, size_x, size_y, gx, gy);
            let m = highest_of(&zs);
            let top = if is_finite(m) && float_bits::lt(float_bits::ZERO, m) {
                m
            } else {
                float_bits::ZERO
            };
            proof {
                lemma_grid_at(
                    gw as int,
                    gh as int,
                    |gx: int, gy: int|
                        land_top(
                            land_heights(points@, units@, size_x as int, size_y as int, gx, gy),
                        ),
                    gx as int,
                    gy as int,
                );
            }
            r.push(top);
            gx = gx + 1;
        }
        proof {
            assert(gy * gw + gw == (gy + 1) * gw) by (nonlinear_arith);
        }
        gy = gy + 1;
    }
    proof {
        assert(gy * gw == gw * gh) by (nonlinear_arith)
            requires
                gy == gh,
        ;
        assert(r@ =~= goal);
    }
    (r, gw, gh)
}

/// The lowest height is no higher than any of the heights that are numbers.
pub proof fn law_lowest_is_lowest(zs: Seq<u32>, n: int, i: int)
    requires
        0 <= i < n <= zs.len(),
        !float_bits::is_nan_spec(zs[i]),
    ensures
        float_bits::le_spec(lowest(zs, n), zs[i]),
    decreases n,
{
    lemma_lowest_is_number(zs, n - 1);
    if i < n - 1 {
        law_lowest_is_lowest(zs, n - 1, i);
    }
}

proof fn lemma_lowest_is_number(zs: Seq<u32>, n: int)
    ensures
        !float_bits::is_nan_spec(lowest(zs, n)),
    decreases n,
{
    if n > 0 {
        lemma_lowest_is_number(zs, n - 1);
    }
}

/// The highest height is no lower than any of the heights that are numbers.
pub proof fn law_highest_is_highest(zs: Seq<u32>, n: int, i: int)
    requires
        0 <= i < n <= zs.len(),
        !float_bits::is_nan_spec(zs[i]),
    ensures
        float_bits::le_spec(zs[i], highest(zs, n)),
    decreases n,
{
    lemma_highest_is_number(zs, n - 1);
    if i < n - 1 {
        law_highest_is_highest(zs, n - 1, i);
    }
}

proof fn lemma_highest_is_number(zs: Seq<u32>, n: int)
    ensures
        !float_bits::is_nan_spec(highest(zs, n)),
    decreases n,
{
    if n > 0 {
        lemma_highest_is_number(zs, n - 1);
    }
}

/// A group's land never tops out below zero.
pub proof fn law_land_top_not_negative(zs: Seq<u32>)
    ensures
        !float_bits::lt_spec(land_top(zs), float_bits::ZERO),
        is_finite_spec(land_top(zs)),
{
}

// ── Shoreline ───────────────────────────────────────────────────────────
/// The shoreline columns: for each group the coordinates of the wave starts
/// and of the directions to the land.
pub struct InshoreColumns {
    pub x: Vec<Vec<u8>>,
    pub y: Vec<Vec<u8>>,
    pub nx: Vec<Vec<u8>>,
    pub ny: Vec<Vec<u8>>,
}

/// The buffer of a group; groups beyond the column have none.
pub open spec fn column_of(c: Seq<Vec<u8>>, i: int) -> Seq<u8> {
    if 0 <= i < c.len() {
        c[i]@
    } else {
        Seq::empty()
    }
}

/// The wave starts of one group: as many as all four columns have whole
/// numbers for.
pub open spec fn inshore_of(x: Seq<u8>, y: Seq<u8>, nx: Seq<u8>, ny: Seq<u8>) -> Seq<InshorePreSpawn> {
    let n = min_int(
        min_int(x.len() as int, y.len() as int),
        min_int(nx.len() as int, ny.len() as int),
    ) / 4;
    Seq::new(
        n as nat,
        |i: int|
            InshorePreSpawn {
                pos: (u32_at(x, 4 * i), u32_at(y, 4 * i)),
                dir: (u32_at(nx, 4 * i), u32_at(ny, 4 * i)),
            },
    )
}

fn group_column(c: &Vec<Vec<u8>>, i: usize) -> (r: &[u8])
    ensures
        r@ == column_of(c@, i as int),
{
    if i < c.len() {
        c[i].as_slice()
    } else {
        let r: &[u8] = &[];
        assert(r@ =~= Seq::<u8>::empty());
        r
    }
}

fn inshore_group(x: &[u8], y: &[u8], nx: &[u8], ny: &[u8]) -> (r: Vec<InshorePreSpawn>)
    ensures
        r@ == inshore_of(x@, y@, nx@, ny@),
{
    let mut n = x.len();
    if y.len() < n {
        n = y.len();
    }
    if nx.len() < n {
        n = nx.len();
    }
    if ny.len() < n {
        n = ny.len();
    }
    let count = n / 4;
    let mut r: Vec<InshorePreSpawn> = Vec::new();
    let mut i: usize = 0;
    while i < count
        invariant
            count == n / 4,
            n <= x@.len(),
            n <= y@.len(),
            n <= nx@.len(),
            n <= ny@.len(),
            n == min_int(
                min_int(x@.len() as int, y@.len() as int),
                min_int(nx@.len() as int, ny@.len() as int),
            ),
            i <= count,
            r@ =~= inshore_of(x@, y@, nx@, ny@).take(i as int),
        decreases count - i,
    {
        r.push(
            InshorePreSpawn {
                pos: (get_u32(x, 4 * i), get_u32(y, 4 * i)),
                dir: (get_u32(nx, 4 * i), get_u32(ny, 4 * i)),
            },
        );
        i = i + 1;
    }
    assert(r@ =~= inshore_of(x@, y@, nx@, ny@));
    r
}

/// The shoreline wave starts of every group. None at all when the map switches
/// them off, has no columns, or has columns for too few groups.
pub fn load_inshore_prespawns(cols: &Option<InshoreColumns>, total: usize, disable: bool) -> (r: Vec<
    Vec<InshorePreSpawn>,
>)
    ensures
        r@.len() == total,
        forall|i: int|
            0 <= i < total ==> (#[trigger] r@[i])@ == match *cols {
                Some(c) => if disable || c.x@.len() < total {
                    Seq::empty()
                } else {
                    inshore_of(
                        column_of(c.x@, i),
                        column_of(c.y@, i),
                        column_of(c.nx@, i),
                        column_of(c.ny@, i),
                    )
                },
                None => Seq::empty(),
            },
{
    let mut r: Vec<Vec<InshorePreSpawn>> = Vec::new();
    let mut i: usize = 0;
    while i < total
        invariant
            i <= total,
            r@.len() == i,
            forall|k: int|
                0 <= k < i ==> (#[trigger] r@[k])@ == match *cols {
                    Some(c) => if disable || c.x@.len() < total {
                        Seq::empty()
                    } else {
                        inshore_of(
                            column_of(c.x@, k),
                            column_of(c.y@, k),
                            column_of(c.nx@, k),
                            column_of(c.ny@, k),
                        )
                    },
                    None => Seq::empty(),
                },
        decreases total - i,
    {
        let list = match cols {
            Some(c) => {
                if disable || c.x.len() < total {
                    Vec::new()
                } else {
                    inshore_group(
                        group_column(&c.x, i),
                        group_column(&c.y, i),
                        group_column(&c.nx, i),
                        group_column(&c.ny, i),
                    )
                }
            },
            None => Vec::new(),
        };
        r.push(list);
        i = i + 1;
    }
    r
}

// ── Roads ───────────────────────────────────────────────────────────────
/// The only format of the road network that is read.
pub const ROADS_VERSION: u32 = 27;

/// What the road network column holds.
#[derive(Debug, Clone, Copy, PartialEq, Eq, Structural)]
pub enum Roads {
    /// No network.
    Missing,
    /// A network, from byte four on.
    Present,
}

/// Why a road network is refused.
#[derive(Debug, Clone, Copy, PartialEq, Eq, Structural)]
pub enum RoadsError {
    TooSmall { len: usize },
    Version { found: u32 },
}

/// Check the head of the road network column. A map without one, or with an
/// empty one, has no roads.
pub fn load_road_network(data: &Option<Vec<u8>>) -> (r: Result<Roads, RoadsError>)
    ensures
        r == match *data {
            None => Ok::<Roads, RoadsError>(Roads::Missing),
            Some(d) => if d@.len() == 0 {
                Ok(Roads::Missing)
            } else if d@.len() < 4 {
                Err(RoadsError::TooSmall { len: d@.len() as usize })
            } else if u32_at(d@, 0) != ROADS_VERSION {
                Err(RoadsError::Version { found: u32_at(d@, 0) })
            } else {
                Ok(Roads::Present)
            },
        },
{
    match data {
        None => Ok(Roads::Missing),
        Some(d) => {
            if d.len() == 0 {
                return Ok(Roads::Missing);
            }
            if d.len() < 4 {
                return Err(RoadsError::TooSmall { len: d.len() });
            }
            let ver = get_u32(d.as_slice(), 0);
            if ver != ROADS_VERSION {
                return Err(RoadsError::Version { found: ver });
            }
            Ok(Roads::Present)
        },
    }
}

/// The height that the plane of a cell gives at one of its corners.
pub open spec fn plane_corner(p: UnitPlane, dx: int, dy: int) -> u32 {
    match p {
        UnitPlane::Flat { z } => z,
        UnitPlane::Corners { z0, z1, z2, z3 } => if dy == 0 {
            if dx == 0 {
                z0
            } else {
                z1
            }
        } else if dx == 0 {
            z3
        } else {
            z2
        },
    }
}

/// Two heights are the same: the same pattern, or both zero.
pub open spec fn same_height(a: u32, b: u32) -> bool {
    a == b || float_bits::eq_spec(a, b)
}

/// The ground of a cell goes through its four corner points: it is flat, and so
/// marked, exactly when the four are equally high, and at each corner its plane
/// has the height of the point there. The other flags are those of the point.
pub proof fn law_ground_goes_through_points(
    points: Seq<CompilePoint>,
    size_x: int,
    size_y: int,
    x: int,
    y: int,
    dx: int,
    dy: int,
)
    requires
        points.len() == (size_x + 1) * (size_y + 1),
        0 <= x < size_x,
        0 <= y < size_y,
        0 <= dx <= 1,
        0 <= dy <= 1,
    ensures
        units_of(points, size_x, size_y).len() == size_x * size_y,
        0 <= y * size_x + x < size_x * size_y,
        ({
            let w = size_x + 1;
            let u = units_of(points, size_x, size_y)[y * size_x + x];
            let z = points[y * w + x].z;
            let level = float_bits::eq_spec(z, points[y * w + x + 1].z) && float_bits::eq_spec(
                z,
                points[(y + 1) * w + x].z,
            ) && float_bits::eq_spec(z, points[(y + 1) * w + x + 1].z);
            &&& (u.flags & CELLFLAG_FLAT != 0) == level
            &&& (u.plane is Flat) == level
            &&& same_height(plane_corner(u.plane, dx, dy), points[(y + dy) * w + x + dx].z)
            &&& u.flags & !CELLFLAG_FLAT == points[y * w + x].flags & !CELLFLAG_FLAT
        }),
{
    lemma_cell_index(x, y, size_x, size_y);
    lemma_grid_at(
        size_x,
        size_y,
        |x: int, y: int| unit_spec(points, size_x + 1, x, y),
        x,
        y,
    );
    let f = points[y * (size_x + 1) + x].flags;
    let flat = CELLFLAG_FLAT;
    assert((f | flat) & flat == flat && (f & !flat) & flat == 0 && (f | flat) & !flat == f & !flat
        && (f & !flat) & !flat == f & !flat) by (bit_vector);
    assert(flat != 0);
    assert((y + 0) * (size_x + 1) == y * (size_x + 1));
}

/// The twelve bytes of a point.
pub open spec fn point_bytes(p: CompilePoint) -> Seq<u8> {
    le_bytes(to_unsigned(p.move_idx)) + le_bytes(p.z) + seq![p.b, p.g, p.r, p.flags]
}

/// Points one after the other, as bytes.
pub open spec fn points_bytes(ps: Seq<CompilePoint>) -> Seq<u8>
    decreases ps.len(),
{
    if ps.len() == 0 {
        Seq::empty()
    } else {
        points_bytes(ps.drop_last()) + point_bytes(ps.last())
    }
}

proof fn lemma_point_at(pre: Seq<u8>, p: CompilePoint, post: Seq<u8>)
    ensures
        point_at(pre + point_bytes(p) + post, pre.len() as int) == p,
        point_bytes(p).len() == 12,
{
    let s = pre + point_bytes(p) + post;
    let n = pre.len() as int;
    let m = le_bytes(to_unsigned(p.move_idx));
    let z = le_bytes(p.z);
    let c = seq![p.b, p.g, p.r, p.flags];
    assert(s =~= pre + m + (z + c + post));
    law_read_gives_back_write(pre, to_unsigned(p.move_idx), z + c + post);
    assert(s =~= (pre + m) + z + (c + post));
    law_read_gives_back_write(pre + m, p.z, c + post);
    law_signed_round_trip(0, p.move_idx);
    assert(s[n + 8] == c[0] && s[n + 9] == c[1] && s[n + 10] == c[2] && s[n + 11] == c[3]);
}

proof fn lemma_points_len(ps: Seq<CompilePoint>)
    ensures
        points_bytes(ps).len() == 12 * ps.len(),
    decreases ps.len(),
{
    if ps.len() > 0 {
        lemma_points_len(ps.drop_last());
        lemma_point_at(Seq::empty(), ps.last(), Seq::empty());
    }
}

proof fn lemma_points_at(ps: Seq<CompilePoint>, rest: Seq<u8>, i: int)
    requires
        0 <= i < ps.len(),
    ensures
        point_at(points_bytes(ps) + rest, 12 * i) == ps[i],
    decreases ps.len(),
{
    let qs = ps.drop_last();
    lemma_points_len(qs);
    if i == ps.len() - 1 {
        lemma_point_at(points_bytes(qs), ps.last(), rest);
    } else {
        lemma_points_at(qs, point_bytes(ps.last()) + rest, i);
        assert(points_bytes(ps) + rest =~= points_bytes(qs) + (point_bytes(ps.last()) + rest));
    }
}

/// The points of a map are read back as they were written, one after the other;
/// what follows them does not count.
pub proof fn law_points_are_read_back(ps: Seq<CompilePoint>, rest: Seq<u8>)
    ensures
        points_of(points_bytes(ps) + rest, ps.len() as int) == ps,
{
    assert forall|i: int| 0 <= i < ps.len() implies points_of(
        points_bytes(ps) + rest,
        ps.len() as int,
    )[i] == ps[i] by {
        lemma_points_at(ps, rest, i);
    }
    assert(points_of(points_bytes(ps) + rest, ps.len() as int) =~= ps);
}

/// The sixteen bytes of a cell of the movement grid.
pub open spec fn move_bytes(c: MoveCell) -> Seq<u8> {
    le_bytes(to_unsigned(c.zone)) + le_bytes(c.stop) + le_bytes(c.sphere) + le_bytes(c.zubchik)
}

/// A cell of the movement grid is read back as it was written.
pub proof fn law_move_cell_is_read_back(pre: Seq<u8>, c: MoveCell, post: Seq<u8>)
    ensures
        move_at(pre + move_bytes(c) + post, pre.len() as int) == c,
        move_bytes(c).len() == 16,
{
    let s = pre + move_bytes(c) + post;
    let (a, b, d, e) = (
        le_bytes(to_unsigned(c.zone)),
        le_bytes(c.stop),
        le_bytes(c.sphere),
        le_bytes(c.zubchik),
    );
    law_signed_round_trip(0, c.zone);
    assert(s =~= pre + a + (b + d + e + post));
    law_read_gives_back_write(pre, to_unsigned(c.zone), b + d + e + post);
    assert(s =~= (pre + a) + b + (d + e + post));
    law_read_gives_back_write(pre + a, c.stop, d + e + post);
    assert(s =~= (pre + a + b) + d + (e + post));
    law_read_gives_back_write(pre + a + b, c.sphere, e + post);
    assert(s =~= (pre + a + b + d) + e + post);
    law_read_gives_back_write(pre + a + b + d, c.zubchik, post);
}

/// Every cell of a map has four cells of the movement grid, which stand in the
/// record that its near left point names: near left, near right, far left, far
/// right. A point that names no record leaves the four clear.
pub proof fn law_cell_has_four_move_cells(
    data: Seq<u8>,
    points: Seq<CompilePoint>,
    size_x: int,
    size_y: int,
    x: int,
    y: int,
    dx: int,
    dy: int,
)
    requires
        points.len() == (size_x + 1) * (size_y + 1),
        0 <= x < size_x,
        0 <= y < size_y,
        0 <= dx <= 1,
        0 <= dy <= 1,
    ensures
        ({
            let cells = move_cells_of(data, points, size_x, size_y);
            let named = points[y * (size_x + 1) + x].move_idx;
            let c = cells[(2 * y + dy) * (2 * size_x) + (2 * x + dx)];
            &&& cells.len() == (2 * size_x) * (2 * size_y)
            &&& 0 <= named && 64 * named + 64 <= data.len() ==> c == move_at(
                data,
                64 * named + 16 * dx + 32 * dy,
            )
            &&& named < 0 || 64 * named + 64 > data.len() ==> c.stop == 0 && c.sphere == 0
                && c.zubchik == 0
        }),
{
    let (mx, my) = (2 * x + dx, 2 * y + dy);
    lemma_grid_at(
        2 * size_x,
        2 * size_y,
        |mx: int, my: int| move_cell_spec(data, points, size_x, mx, my),
        mx,
        my,
    );
    assert(mx / 2 == x && mx % 2 == dx && my / 2 == y && my % 2 == dy);
}

/// The bridge deck over a map: every cell under the deck is marked as a bridge and
/// goes through the four deck heights at its corners, flat exactly where these are
/// equal; every other cell stays as it was.
pub proof fn law_deck_makes_bridge(
    units: Seq<MapUnit>,
    size_x: int,
    size_y: int,
    d: Deck,
    n: int,
    x: int,
    y: int,
    dx: int,
    dy: int,
)
    requires
        0 <= x < size_x,
        0 <= y < size_y,
        0 <= dx <= 1,
        0 <= dy <= 1,
        units.len() == size_x * size_y,
        0 <= d.left,
        d.right <= size_x + 1,
        0 <= n <= d.bottom - d.top,
    ensures
        deck_units(units, size_x, d, n).len() == units.len(),
        0 <= y * size_x + x < units.len(),
        ({
            let u = deck_units(units, size_x, d, n)[y * size_x + x];
            let old = units[y * size_x + x];
            let under = d.left <= x && x + 1 < d.right && d.top <= y && y < d.top + n && y + 1
                < d.bottom;
            let level = float_bits::eq_spec(d.at(x, y), d.at(x + 1, y)) && float_bits::eq_spec(
                d.at(x, y),
                d.at(x, y + 1),
            ) && float_bits::eq_spec(d.at(x, y), d.at(x + 1, y + 1));
            &&& !under ==> u == old
            &&& under ==> {
                &&& u.flags & CELLFLAG_BRIDGE != 0
                &&& (u.flags & CELLFLAG_FLAT != 0) == level
                &&& (u.plane is Flat) == level
                &&& same_height(plane_corner(u.plane, dx, dy), d.at(x + dx, y + dy))
            }
        }),
    decreases n,
{
    lemma_cell_index(x, y, size_x, size_y);
    if n > 0 {
        law_deck_makes_bridge(units, size_x, size_y, d, n - 1, x, y, dx, dy);
        let r = d.top + n - 1;
        let k = y * size_x + x;
        if r == y {
            lemma_deck_flags(deck_units(units, size_x, d, n - 1)[k].flags);
        } else if d.left <= k - r * size_x < d.right && (k - r * size_x) + 1 < d.right {
            assert(r == y) by (nonlinear_arith)
                requires
                    0 <= k - r * size_x < size_x,
                    k == y * size_x + x,
                    0 <= x < size_x,
            ;
        }
    }
}

proof fn lemma_deck_flags(f: u8)
    ensures
        (f | CELLFLAG_BRIDGE | CELLFLAG_FLAT) & CELLFLAG_BRIDGE != 0,
        (f | CELLFLAG_BRIDGE | CELLFLAG_FLAT) & CELLFLAG_FLAT != 0,
        ((f | CELLFLAG_BRIDGE) & !CELLFLAG_FLAT) & CELLFLAG_BRIDGE != 0,
        ((f | CELLFLAG_BRIDGE) & !CELLFLAG_FLAT) & CELLFLAG_FLAT == 0,
{
    assert((f | 8u8 | 4u8) & 8u8 == 8u8 && (f | 8u8 | 4u8) & 4u8 == 4u8 && ((f | 8u8) & !4u8) & 8u8
        == 8u8 && ((f | 8u8) & !4u8) & 4u8 == 0) by (bit_vector);
}

/// A bridge record that lies on the map and has a height for each of its points is
/// put down; any other is passed over.
pub proof fn law_bridge_record(s: Seq<u8>, size_x: int, size_y: int)
    requires
        s.len() >= 16,
    ensures
        ({
            let (l, t) = (i32_at(s, 0), i32_at(s, 4));
            let (r, b) = (i32_at(s, 8), i32_at(s, 12));
            let fits = 0 <= l < r <= size_x + 1 && 0 <= t < b <= size_y + 1;
            &&& !fits ==> deck_of(s, size_x, size_y) is None
            &&& fits && (s.len() - 16) / 4 < (r - l) * (b - t) ==> deck_of(s, size_x, size_y)
                is None
            &&& fits && (s.len() - 16) / 4 >= (r - l) * (b - t) ==> {
                &&& deck_of(s, size_x, size_y) matches Some(d) && d.left == l && d.top == t
                    && d.right == r && d.bottom == b
                &&& forall|x: int, y: int|
                    l <= x < r && t <= y < b ==> (#[trigger] (deck_of(s, size_x, size_y)->0).at(
                        x,
                        y,
                    )) == u32_at(s, 16 + 4 * ((y - t) * (r - l) + (x - l)))
            }
        }),
{
    let rest = s.subrange(16, s.len() as int);
    let (l, t) = (i32_at(s, 0), i32_at(s, 4));
    let (r, b) = (i32_at(s, 8), i32_at(s, 12));
    if 0 <= l < r <= size_x + 1 && 0 <= t < b <= size_y + 1 && (s.len() - 16) / 4 >= (r - l) * (b
        - t) {
        let d = deck_of(s, size_x, size_y)->0;
        assert forall|x: int, y: int| l <= x < r && t <= y < b implies (#[trigger] d.at(x, y))
            == u32_at(s, 16 + 4 * ((y - t) * (r - l) + (x - l))) by {
            lemma_cell_index(x - l, y - t, r - l, b - t);
            let k = (y - t) * (r - l) + (x - l);
            assert(u32_array(rest)[k] == u32_at(rest, 4 * k));
        }
    }
}

/// The extremes of some heights are heights among them, where there is a number
/// between the infinities at all.
pub proof fn law_extremes_are_attained(zs: Seq<u32>, n: int)
    requires
        0 <= n <= zs.len(),
    ensures
        lowest(zs, n) != 0x7f80_0000 ==> exists|i: int| 0 <= i < n && #[trigger] zs[i] == lowest(zs, n),
        highest(zs, n) != 0xff80_0000 ==> exists|i: int|
            0 <= i < n && #[trigger] zs[i] == highest(zs, n),
    decreases n,
{
    if n > 0 {
        law_extremes_are_attained(zs, n - 1);
        if lowest(zs, n) == zs[n - 1] {
        } else if lowest(zs, n) != 0x7f80_0000 {
            let i = choose|i: int| 0 <= i < n - 1 && #[trigger] zs[i] == lowest(zs, n - 1);
            assert(zs[i] == lowest(zs, n));
        }
        if highest(zs, n) == zs[n - 1] {
        } else if highest(zs, n) != 0xff80_0000 {
            let i = choose|i: int| 0 <= i < n - 1 && #[trigger] zs[i] == highest(zs, n - 1);
            assert(zs[i] == highest(zs, n));
        }
    }
}

proof fn lemma_rect_heights(
    points: Seq<CompilePoint>,
    stride: int,
    x0: int,
    x1: int,
    y0: int,
    n: int,
    x: int,
    y: int,
)
    requires
        x0 <= x <= x1,
        y0 <= y < y0 + n,
    ensures
        rect_heights(points, stride, x0, x1, y0, n).contains(points[y * stride + x].z),
    decreases n,
{
    let a = rect_heights(points, stride, x0, x1, y0, n - 1);
    let b = row_heights(points, stride, x0, y0 + n - 1, x1 - x0 + 1);
    let z = points[y * stride + x].z;
    if y == y0 + n - 1 {
        assert(b[x - x0] == z);
        assert((a + b)[a.len() + (x - x0)] == z);
    } else {
        lemma_rect_heights(points, stride, x0, x1, y0, n - 1, x, y);
        assert((a + b)[a.index_of(z)] == z);
    }
}

/// No point of a group lies outside the bounds of the group: the group holds ten
/// cells each way and the points on its edges.
pub proof fn law_points_lie_in_bounds(
    points: Seq<CompilePoint>,
    size_x: int,
    size_y: int,
    gx: int,
    gy: int,
    x: int,
    y: int,
)
    requires
        points.len() == (size_x + 1) * (size_y + 1),
        0 <= gx,
        0 <= gy,
        10 * gx <= x <= 10 * gx + 10,
        10 * gy <= y <= 10 * gy + 10,
        x <= size_x,
        y <= size_y,
        10 * gx < size_x,
        10 * gy < size_y,
        is_finite_spec(points[y * (size_x + 1) + x].z),
        is_finite_spec(
            lowest(
                group_heights(points, size_x, size_y, gx, gy),
                group_heights(points, size_x, size_y, gx, gy).len() as int,
            ),
        ),
    ensures
        ({
            let b = group_bounds_of(points, size_x, size_y)[gy * groups_over(size_x) + gx];
            let z = points[y * (size_x + 1) + x].z;
            float_bits::le_spec(b.min_z, z) && float_bits::le_spec(z, b.max_z)
        }),
{
    let zs = group_heights(points, size_x, size_y, gx, gy);
    let n = zs.len() as int;
    let (x0, y0) = (gx * MAP_GROUP_SIZE, gy * MAP_GROUP_SIZE);
    let x1 = min_int(x0 + MAP_GROUP_SIZE, size_x);
    let y1 = min_int(y0 + MAP_GROUP_SIZE, size_y);
    lemma_rect_heights(points, size_x + 1, x0, x1, y0, y1 - y0 + 1, x, y);
    let i = zs.index_of(points[y * (size_x + 1) + x].z);
    law_lowest_is_lowest(zs, n, i);
    law_highest_is_highest(zs, n, i);
    lemma_grid_at(
        groups_over(size_x),
        groups_over(size_y),
        |gx: int, gy: int| bounds_of(group_heights(points, size_x, size_y, gx, gy)),
        gx,
        gy,
    );
}

proof fn lemma_land_row(
    points: Seq<CompilePoint>,
    units: Seq<MapUnit>,
    size_x: int,
    x0: int,
    y: int,
    n: int,
    x: int,
    dx: int,
    dy: int,
)
    requires
        x0 <= x < x0 + n,
        0 <= dx <= 1,
        0 <= dy <= 1,
        units[y * size_x + x].flags & CELLFLAG_LAND != 0,
    ensures
        land_row(points, units, size_x, x0, y, n).contains(
            points[(y + dy) * (size_x + 1) + (x + dx)].z,
        ),
    decreases n,
{
    let r = land_row(points, units, size_x, x0, y, n);
    let p = land_row(points, units, size_x, x0, y, n - 1);
    let z = points[(y + dy) * (size_x + 1) + (x + dx)].z;
    if x == x0 + n - 1 {
        assert(r[p.len() + 2 * dy + dx] == z);
    } else {
        lemma_land_row(points, units, size_x, x0, y, n - 1, x, dx, dy);
        assert(r[p.index_of(z)] == z);
    }
}

proof fn lemma_land_rect(
    points: Seq<CompilePoint>,
    units: Seq<MapUnit>,
    size_x: int,
    x0: int,
    x1: int,
    y0: int,
    n: int,
    x: int,
    y: int,
    dx: int,
    dy: int,
)
    requires
        x0 <= x < x1,
        y0 <= y < y0 + n,
        0 <= dx <= 1,
        0 <= dy <= 1,
        units[y * size_x + x].flags & CELLFLAG_LAND != 0,
    ensures
        land_rect(points, units, size_x, x0, x1, y0, n).contains(
            points[(y + dy) * (size_x + 1) + (x + dx)].z,
        ),
    decreases n,
{
    let a = land_rect(points, units, size_x, x0, x1, y0, n - 1);
    let b = land_row(points, units, size_x, x0, y0 + n - 1, x1 - x0);
    let z = points[(y + dy) * (size_x + 1) + (x + dx)].z;
    if y == y0 + n - 1 {
        lemma_land_row(points, units, size_x, x0, y, x1 - x0, x, dx, dy);
        assert((a + b)[a.len() + b.index_of(z)] == z);
    } else {
        lemma_land_rect(points, units, size_x, x0, x1, y0, n - 1, x, y, dx, dy);
        assert((a + b)[a.index_of(z)] == z);
    }
}

/// No corner of a land cell lies above the top of its group, and no group has its
/// top below zero.
pub proof fn law_land_lies_below_top(
    points: Seq<CompilePoint>,
    units: Seq<MapUnit>,
    size_x: int,
    size_y: int,
    x: int,
    y: int,
    dx: int,
    dy: int,
)
    requires
        points.len() == (size_x + 1) * (size_y + 1),
        units.len() == size_x * size_y,
        0 <= x < size_x,
        0 <= y < size_y,
        0 <= dx <= 1,
        0 <= dy <= 1,
        units[y * size_x + x].flags & CELLFLAG_LAND != 0,
        forall|i: int| 0 <= i < points.len() ==> is_finite_spec((#[trigger] points[i]).z),
    ensures
        ({
            let (gx, gy) = (x / 10, y / 10);
            let top = group_tops_of(points, units, size_x, size_y)[gy * groups_over(size_x) + gx];
            let z = points[(y + dy) * (size_x + 1) + (x + dx)].z;
            float_bits::le_spec(z, top) && float_bits::le_spec(0, top)
        }),
{
    let (gx, gy) = (x / 10, y / 10);
    let zs = land_heights(points, units, size_x, size_y, gx, gy);
    let (x0, y0) = (gx * MAP_GROUP_SIZE, gy * MAP_GROUP_SIZE);
    let x1 = min_int(x0 + MAP_GROUP_SIZE, size_x);
    let y1 = min_int(y0 + MAP_GROUP_SIZE, size_y);
    lemma_land_rect(points, units, size_x, x0, x1, y0, y1 - y0, x, y, dx, dy);
    let z = points[(y + dy) * (size_x + 1) + (x + dx)].z;
    lemma_cell_index(x + dx, y + dy, size_x + 1, size_y + 1);
    assert(is_finite_spec(z));
    let i = zs.index_of(z);
    let n = zs.len() as int;
    law_highest_is_highest(zs, n, i);
    law_extremes_are_attained(zs, n);
    lemma_land_finite(points, units, size_x, size_y, x0, x1, y0, y1 - y0);
    lemma_grid_at(
        groups_over(size_x),
        groups_over(size_y),
        |gx: int, gy: int| land_top(land_heights(points, units, size_x, size_y, gx, gy)),
        gx,
        gy,
    );
}

proof fn lemma_land_finite(
    points: Seq<CompilePoint>,
    units: Seq<MapUnit>,
    size_x: int,
    size_y: int,
    x0: int,
    x1: int,
    y0: int,
    n: int,
)
    requires
        points.len() == (size_x + 1) * (size_y + 1),
        0 <= x0,
        x1 <= size_x,
        0 <= y0,
        y0 + n <= size_y,
        forall|i: int| 0 <= i < points.len() ==> is_finite_spec((#[trigger] points[i]).z),
    ensures
        forall|i: int|
            0 <= i < land_rect(points, units, size_x, x0, x1, y0, n).len() ==> is_finite_spec(
                #[trigger] land_rect(points, units, size_x, x0, x1, y0, n)[i],
            ),
    decreases n,
{
    if n > 0 {
        lemma_land_finite(points, units, size_x, size_y, x0, x1, y0, n - 1);
        lemma_land_row_finite(points, units, size_x, size_y, x0, y0 + n - 1, x1 - x0);
        let a = land_rect(points, units, size_x, x0, x1, y0, n - 1);
        let b = land_row(points, units, size_x, x0, y0 + n - 1, x1 - x0);
        let r = land_rect(points, units, size_x, x0, x1, y0, n);
        assert forall|i: int| 0 <= i < r.len() implies is_finite_spec(#[trigger] r[i]) by {
            if i < a.len() {
                assert(r[i] == a[i]);
            } else {
                assert(r[i] == b[i - a.len()]);
            }
        }
    }
}

proof fn lemma_land_row_finite(
    points: Seq<CompilePoint>,
    units: Seq<MapUnit>,
    size_x: int,
    size_y: int,
    x0: int,
    y: int,
    n: int,
)
    requires
        points.len() == (size_x + 1) * (size_y + 1),
        0 <= x0,
        x0 + n <= size_x,
        0 <= y < size_y,
        forall|i: int| 0 <= i < points.len() ==> is_finite_spec((#[trigger] points[i]).z),
    ensures
        forall|i: int|
            0 <= i < land_row(points, units, size_x, x0, y, n).len() ==> is_finite_spec(
                #[trigger] land_row(points, units, size_x, x0, y, n)[i],
            ),
    decreases n,
{
    if n > 0 {
        lemma_land_row_finite(points, units, size_x, size_y, x0, y, n - 1);
        let x = x0 + n - 1;
        lemma_cell_index(x, y, size_x + 1, size_y + 1);
        lemma_cell_index(x + 1, y, size_x + 1, size_y + 1);
        lemma_cell_index(x, y + 1, size_x + 1, size_y + 1);
        lemma_cell_index(x + 1, y + 1, size_x + 1, size_y + 1);
        assert(is_finite_spec(points[y * (size_x + 1) + x].z));
        assert(is_finite_spec(points[y * (size_x + 1) + (x + 1)].z));
        assert(is_finite_spec(points[(y + 1) * (size_x + 1) + x].z));
        assert(is_finite_spec(points[(y + 1) * (size_x + 1) + (x + 1)].z));
        let a = land_row(points, units, size_x, x0, y, n - 1);
        let r = land_row(points, units, size_x, x0, y, n);
        assert forall|i: int| 0 <= i < r.len() implies is_finite_spec(#[trigger] r[i]) by {
            if i < a.len() {
                assert(r[i] == a[i]);
            }
        }
    }
}

/// A wave starts where the columns say, for as many as all four columns have.
pub proof fn law_waves_are_read(x: Seq<u32>, y: Seq<u32>, nx: Seq<u32>, ny: Seq<u32>, i: int)
    requires
        0 <= i < x.len(),
        i < y.len(),
        i < nx.len(),
        i < ny.len(),
    ensures
        ({
            let w = inshore_of(le_all(x), le_all(y), le_all(nx), le_all(ny));
            &&& i < w.len()
            &&& w[i].pos == (x[i], y[i])
            &&& w[i].dir == (nx[i], ny[i])
            &&& w.len() <= x.len() && w.len() <= y.len() && w.len() <= nx.len() && w.len()
                <= ny.len()
        }),
{
    let none = Seq::<u8>::empty();
    law_column_is_read_back(x, none);
    law_column_is_read_back(y, none);
    law_column_is_read_back(nx, none);
    law_column_is_read_back(ny, none);
    assert(le_all(x) + none =~= le_all(x));
    assert(le_all(y) + none =~= le_all(y));
    assert(le_all(nx) + none =~= le_all(nx));
    assert(le_all(ny) + none =~= le_all(ny));
    assert(u32_array(le_all(x))[i] == u32_at(le_all(x), 4 * i));
    assert(u32_array(le_all(y))[i] == u32_at(le_all(y), 4 * i));
    assert(u32_array(le_all(nx))[i] == u32_at(le_all(nx), 4 * i));
    assert(u32_array(le_all(ny))[i] == u32_at(le_all(ny), 4 * i));
    assert(u32_array(le_all(x)).len() == le_all(x).len() / 4);
    assert(u32_array(le_all(y)).len() == le_all(y).len() / 4);
    assert(u32_array(le_all(nx)).len() == le_all(nx).len() / 4);
    assert(u32_array(le_all(ny)).len() == le_all(ny).len() / 4);
}

/// Groups of ten cells cover a map: every cell lies in one, and none is empty.
pub proof fn law_groups_cover(n: int, x: int)
    requires
        0 <= x < n,
    ensures
        0 <= x / 10 < groups_over(n),
        10 * (groups_over(n) - 1) < n <= 10 * groups_over(n),
{
}

/// Bridges are laid one after the other, each on what the ones before it left;
/// a record that is none changes nothing.
pub proof fn law_bridges_one_after_other(
    recs: Seq<Seq<u8>>,
    points: Seq<CompilePoint>,
    units: Seq<MapUnit>,
    size_x: int,
    size_y: int,
    n: int,
)
    requires
        0 < n <= recs.len(),
    ensures
        bridged(recs, points, units, size_x, size_y, 0) == (points, units),
        ({
            let was = bridged(recs, points, units, size_x, size_y, n - 1);
            let now = bridged(recs, points, units, size_x, size_y, n);
            let deck = deck_of(recs[n - 1], size_x, size_y);
            &&& deck is None ==> now == was
            &&& deck is Some ==> now.0 == deck_points(
                was.0,
                size_x,
                deck->0,
                (deck->0).bottom - (deck->0).top,
            )
            &&& deck is Some ==> now.1 == deck_units(
                was.1,
                size_x,
                deck->0,
                (deck->0).bottom - (deck->0).top,
            )
        }),
{
}

} // verus!
