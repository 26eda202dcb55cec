//! Little-endian numbers in byte buffers.
use vstd::prelude::*;

verus! {

/// The unsigned number in the four bytes of `s` from `off` on.
pub open spec fn u32_at(s: Seq<u8>, off: int) -> u32 {
    (s[off] + 0x100 * s[off + 1] + 0x1_0000 * s[off + 2] + 0x100_0000 * s[off + 3]) as u32
}

/// The unsigned number in the two bytes of `s` from `off` on.
pub open spec fn u16_at(s: Seq<u8>, off: int) -> u16 {
    (s[off] + 0x100 * s[off + 1]) as u16
}

/// Two's complement.
pub open spec fn to_signed(u: u32) -> i32 {
    if u < 0x8000_0000 {
        u as i32
    } else {
        (u - 0x1_0000_0000) as i32
    }
}

/// The signed number in the four bytes of `s` from `off` on.
pub open spec fn i32_at(s: Seq<u8>, off: int) -> i32 {
    to_signed(u32_at(s, off))
}

pub fn signed(u: u32) -> (r: i32)
    ensures
        r == to_signed(u),
{
    if u < 0x8000_0000 {
        u as i32
    } else {
        (u as i64 - 0x1_0000_0000i64) as i32
    }
}

/// The bit pattern of a signed number.
pub open spec fn to_unsigned(i: i32) -> u32 {
    if i >= 0 {
        i as u32
    } else {
        (i + 0x1_0000_0000) as u32
    }
}

pub fn unsigned(i: i32) -> (r: u32)
    ensures
        r == to_unsigned(i),
{
    if i >= 0 {
        i as u32
    } else {
        (i as i64 + 0x1_0000_0000i64) as u32
    }
}

/// Reading a number as signed and back as unsigned loses nothing.
pub proof fn law_signed_round_trip(u: u32, i: i32)
    ensures
        to_unsigned(to_signed(u)) == u,
        to_signed(to_unsigned(i)) == i,
{
}

pub fn get_u32(s: &[u8], off: usize) -> (r: u32)
    requires
        off + 4 <= s@.len(),
    ensures
        r == u32_at(s@, off as int),
{
    let b0 = s[off] as u32;
    let b1 = s[off + 1] as u32;
    let b2 = s[off + 2] as u32;
    let b3 = s[off + 3] as u32;
    b0 + 0x100 * b1 + 0x1_0000 * b2 + 0x100_0000 * b3
}

pub fn get_u16(s: &[u8], off: usize) -> (r: u16)
    requires
        off + 2 <= s@.len(),
    ensures
        r == u16_at(s@, off as int),
{
    let b0 = s[off] as u16;
    let b1 = s[off + 1] as u16;
    b0 + 0x100 * b1
}

pub fn get_i32(s: &[u8], off: usize) -> (r: i32)
    requires
        off + 4 <= s@.len(),
    ensures
        r == i32_at(s@, off as int),
{
    signed(get_u32(s, off))
}

/// All whole four-byte numbers of a buffer; a rest of up to three bytes is
/// left out.
pub open spec fn u32_array(s: Seq<u8>) -> Seq<u32> {
    Seq::new((s.len() / 4) as nat, |i: int| u32_at(s, 4 * i))
}

pub open spec fn i32_array(s: Seq<u8>) -> Seq<i32> {
    Seq::new((s.len() / 4) as nat, |i: int| i32_at(s, 4 * i))
}

pub fn read_u32_array(bytes: &[u8]) -> (r: Vec<u32>)
    ensures
        r@ == u32_array(bytes@),
{
    let len = bytes.len();
    let n = len / 4;
    let mut r: Vec<u32> = Vec::new();
    let mut i: usize = 0;
    while i < n
        invariant
            len == bytes@.len(),
            n == len / 4,
            i <= n,
            r@ =~= u32_array(bytes@).take(i as int),
        decreases n - i,
    {
        r.push(get_u32(bytes, 4 * i));
        i = i + 1;
    }
    assert(r@ =~= u32_array(bytes@));
    r
}

pub fn read_i32_array(bytes: &[u8]) -> (r: Vec<i32>)
    ensures
        r@ == i32_array(bytes@),
{
    let len = bytes.len();
    let n = len / 4;
    let mut r: Vec<i32> = Vec::new();
    let mut i: usize = 0;
    while i < n
        invariant
            len == bytes@.len(),
            n == len / 4,
            i <= n,
            r@ =~= i32_array(bytes@).take(i as int),
        decreases n - i,
    {
        r.push(get_i32(bytes, 4 * i));
        i = i + 1;
    }
    assert(r@ =~= i32_array(bytes@));
    r
}

/// Single-precision numbers, read as their bit patterns.
pub fn read_f32_array(bytes: &[u8]) -> (r: Vec<u32>)
    ensures
        r@ == u32_array(bytes@),
{
    read_u32_array(bytes)
}

/// The signed number at a reading position, which moves past it; `None`, and
/// the position unmoved, when fewer than four bytes are left.
pub fn read_i32_le(bytes: &[u8], off: &mut usize) -> (r: Option<i32>)
    ensures
        if *old(off) + 4 <= bytes@.len() {
            r == Some(i32_at(bytes@, *old(off) as int)) && *final(off) == *old(off) + 4
        } else {
            r is None && *final(off) == *old(off)
        },
{
    if bytes.len() < 4 || *off > bytes.len() - 4 {
        return None;
    }
    let value = get_i32(bytes, *off);
    *off = *off + 4;
    Some(value)
}

/// The four bytes of a number, lowest first.
pub open spec fn le_bytes(v: u32) -> Seq<u8> {
    seq![
        (v % 0x100) as u8,
        (v / 0x100 % 0x100) as u8,
        (v / 0x1_0000 % 0x100) as u8,
        (v / 0x100_0000) as u8,
    ]
}

/// A number that was written into a buffer, lowest byte first, is read back from
/// where it stands, whatever is before and behind it.
pub proof fn law_read_gives_back_write(pre: Seq<u8>, v: u32, post: Seq<u8>)
    ensures
        u32_at(pre + le_bytes(v) + post, pre.len() as int) == v,
        i32_at(pre + le_bytes(v) + post, pre.len() as int) == to_signed(v),
        le_bytes(v).len() == 4,
{
    let s = pre + le_bytes(v) + post;
    let n = pre.len() as int;
    assert(s[n] == le_bytes(v)[0] && s[n + 1] == le_bytes(v)[1] && s[n + 2] == le_bytes(v)[2] && s[n
        + 3] == le_bytes(v)[3]);
    lemma_digits(v as int);
}

proof fn lemma_digits(v: int)
    requires
        0 <= v < 0x1_0000_0000,
    ensures
        v == v % 0x100 + 0x100 * (v / 0x100 % 0x100) + 0x1_0000 * (v / 0x1_0000 % 0x100) + 0x100_0000
            * (v / 0x100_0000),
        0 <= v / 0x100_0000 < 0x100,
{
    assert(v / 0x1_0000 == (v / 0x100) / 0x100);
    assert(v / 0x100_0000 == (v / 0x1_0000) / 0x100);
}

/// The same of a number of two bytes.
pub proof fn law_read_gives_back_short(pre: Seq<u8>, v: u16, post: Seq<u8>)
    ensures
        u16_at(
            pre + seq![(v % 0x100) as u8, (v / 0x100) as u8] + post,
            pre.len() as int,
        ) == v,
{
    let s = pre + seq![(v % 0x100) as u8, (v / 0x100) as u8] + post;
    let n = pre.len() as int;
    assert(s[n] == (v % 0x100) as u8 && s[n + 1] == (v / 0x100) as u8);
}

/// Numbers one after the other, as bytes.
pub open spec fn le_all(v: Seq<u32>) -> Seq<u8>
    decreases v.len(),
{
    if v.len() == 0 {
        Seq::empty()
    } else {
        le_all(v.drop_last()) + le_bytes(v.last())
    }
}

/// A column of numbers is read back as it was written; up to three bytes behind it
/// do not count.
pub proof fn law_column_is_read_back(v: Seq<u32>, rest: Seq<u8>)
    requires
        rest.len() < 4,
    ensures
        u32_array(le_all(v) + rest) == v,
        i32_array(le_all(v) + rest) == v.map_values(|u: u32| to_signed(u)),
{
    lemma_le_all_len(v);
    let s = le_all(v) + rest;
    assert forall|i: int| 0 <= i < v.len() implies u32_at(s, 4 * i) == v[i] by {
        lemma_le_all_at(v, rest, i);
    }
    assert(u32_array(s) =~= v);
    assert(i32_array(s) =~= v.map_values(|u: u32| to_signed(u)));
}

proof fn lemma_le_all_len(v: Seq<u32>)
    ensures
        le_all(v).len() == 4 * v.len(),
    decreases v.len(),
{
    if v.len() > 0 {
        lemma_le_all_len(v.drop_last());
    }
}

proof fn lemma_le_all_at(v: Seq<u32>, rest: Seq<u8>, i: int)
    requires
        0 <= i < v.len(),
    ensures
        u32_at(le_all(v) + rest, 4 * i) == v[i],
    decreases v.len(),
{
    let w = v.drop_last();
    lemma_le_all_len(w);
    if i == v.len() - 1 {
        law_read_gives_back_write(le_all(w), v.last(), rest);
    } else {
        lemma_le_all_at(w, le_bytes(v.last()) + rest, i);
        assert(le_all(v) + rest =~= le_all(w) + (le_bytes(v.last()) + rest));
    }
}

/// The sign: patterns in the upper half stand for the numbers below zero.
pub proof fn law_sign(u: u32)
    ensures
        u <= 0x7fff_ffff ==> to_signed(u) == u,
        u >= 0x8000_0000 ==> to_signed(u) == u - 0x1_0000_0000,
        to_signed(0xffff_ffff) == -1,
{
}

} // verus!
