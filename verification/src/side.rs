//! The colours of the sides.
use vstd::prelude::*;

verus! {

/// Red, green and blue of a side; sides beyond the fourth are grey.
pub open spec fn side_rgb(side: i32) -> (u8, u8, u8) {
    if side == 1 {
        (227, 158, 31)
    } else if side == 2 {
        (142, 0, 0)
    } else if side == 3 {
        (0, 0, 150)
    } else if side == 4 {
        (0, 150, 0)
    } else {
        (128, 128, 128)
    }
}

/// The channels of a side's colour.
pub fn side_color_rgb(side: i32) -> (c: (u8, u8, u8))
    ensures
        c == side_rgb(side),
{
    match side {
        1 => (227, 158, 31),
        2 => (142, 0, 0),
        3 => (0, 0, 150),
        4 => (0, 150, 0),
        _ => (128, 128, 128),
    }
}

/// A side's colour in one word, red highest, no alpha.
pub fn side_color_u32(side: i32) -> (c: u32)
    ensures
        c == 0x1_0000 * side_rgb(side).0 + 0x100 * side_rgb(side).1 + side_rgb(side).2,
{
    let (r, g, b) = side_color_rgb(side);
    0x1_0000 * (r as u32) + 0x100 * (g as u32) + b as u32
}

/// A side's colour on the minimap, red, green and blue.
pub open spec fn minimap_rgb(side: i32) -> (u8, u8, u8) {
    if side == 1 {
        (255, 255, 0)
    } else if side == 2 {
        (255, 0, 0)
    } else if side == 3 {
        (0, 0, 255)
    } else if side == 4 {
        (0, 255, 0)
    } else {
        (128, 128, 128)
    }
}

/// The channels of a side's colour on the minimap.
pub fn side_color_minimap_rgb(side: i32) -> (c: (u8, u8, u8))
    ensures
        c == minimap_rgb(side),
{
    match side {
        1 => (255, 255, 0),
        2 => (255, 0, 0),
        3 => (0, 0, 255),
        4 => (0, 255, 0),
        _ => (128, 128, 128),
    }
}

/// The sides have colours of their own, and whoever is none of the four is
/// grey; on the minimap a side has the strong form of its colour: what is its
/// strongest channel is full there.
pub proof fn law_sides_differ(a: i32, b: i32)
    ensures
        1 <= a <= 4 && a != b ==> side_rgb(a) != side_rgb(b) && minimap_rgb(a) != minimap_rgb(b),
        a < 1 || a > 4 ==> side_rgb(a) == (128u8, 128u8, 128u8) && minimap_rgb(a) == (
            128u8,
            128u8,
            128u8,
        ),
        1 <= a <= 4 ==> {
            let c = side_rgb(a);
            let m = minimap_rgb(a);
            &&& m.0 == 255 <==> c.0 > 128
            &&& m.1 == 255 <==> c.1 > 128
            &&& m.2 == 255 <==> c.2 > 128
            &&& m.0 == 0 || m.0 == 255
            &&& m.1 == 0 || m.1 == 255
            &&& m.2 == 0 || m.2 == 255
        },
{
}

} // verus!
