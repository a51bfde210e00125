//! Little-endian numbers in byte sequences.

use vstd::prelude::*;

verus! {

/// One more than the largest 32-bit word.
pub const WORD_LIMIT: i64 = 0x1_0000_0000;

/// The 32-bit word with the same bits as the signed number `v`.
pub open spec fn word(v: int) -> int {
    if v < 0 {
        v + 0x1_0000_0000
    } else {
        v
    }
}

/// The signed number with the same bits as the 32-bit word `w`.
pub open spec fn signed(w: int) -> int {
    if w >= 0x8000_0000 {
        w - 0x1_0000_0000
    } else {
        w
    }
}

#[verifier::opaque]
pub open spec fn u16_le(v: int) -> Seq<u8> {
    seq![(v % 256) as u8, (v / 256) as u8]
}

#[verifier::opaque]
pub open spec fn u32_le(v: int) -> Seq<u8> {
    seq![
        (v % 256) as u8,
        (v / 256 % 256) as u8,
        (v / 65536 % 256) as u8,
        (v / 16777216) as u8,
    ]
}

pub open spec fn i32_le(v: int) -> Seq<u8> {
    u32_le(word(v))
}

pub open spec fn u16_at(b: Seq<u8>, at: int) -> int {
    b[at] + 256 * b[at + 1]
}

pub open spec fn u32_at(b: Seq<u8>, at: int) -> int {
    b[at] + 256 * b[at + 1] + 65536 * b[at + 2] + 16777216 * b[at + 3]
}

pub open spec fn i32_at(b: Seq<u8>, at: int) -> int {
    signed(u32_at(b, at))
}

pub proof fn lemma_u16_le(v: int)
    requires
        0 <= v < 0x10000,
    ensures
        u16_le(v).len() == 2,
        u16_at(u16_le(v), 0) == v,
{
    reveal(u16_le);
}

pub proof fn lemma_u32_le(v: int)
    requires
        0 <= v < 0x1_0000_0000,
    ensures
        u32_le(v).len() == 4,
        u32_at(u32_le(v), 0) == v,
{
    reveal(u32_le);
}

/// A word always takes four bytes, and half a word two.
pub proof fn lemma_le_len(v: int)
    ensures
        u32_le(v).len() == 4,
        u16_le(v).len() == 2,
{
    reveal(u32_le);
    reveal(u16_le);
}

pub proof fn lemma_i32_le(v: int)
    requires
        -0x8000_0000 <= v < 0x8000_0000,
    ensures
        i32_le(v).len() == 4,
        i32_at(i32_le(v), 0) == v,
{
    lemma_u32_le(word(v));
}

pub fn read_u16(b: &[u8], at: usize) -> (v: u16)
    requires
        at + 2 <= b@.len(),
    ensures
        v == u16_at(b@, at as int),
{
    let _len: usize = b.len();
    b[at] as u16 + 256 * b[at + 1] as u16
}

pub fn read_u32(b: &[u8], at: usize) -> (v: u32)
    requires
        at + 4 <= b@.len(),
    ensures
        v == u32_at(b@, at as int),
{
    let _len: usize = b.len();
    b[at] as u32 + 256 * b[at + 1] as u32 + 65536 * b[at + 2] as u32 + 16777216 * b[at + 3] as u32
}

pub fn read_i32(b: &[u8], at: usize) -> (v: i32)
    requires
        at + 4 <= b@.len(),
    ensures
        v == i32_at(b@, at as int),
{
    let w: u32 = read_u32(b, at);
    if w >= 0x8000_0000 {
        (w as i64 - 0x1_0000_0000) as i32
    } else {
        w as i32
    }
}

pub fn push_u16(out: &mut Vec<u8>, v: u16)
    ensures
        final(out)@ == old(out)@ + u16_le(v as int),
{
    out.push((v % 256) as u8);
    out.push((v / 256) as u8);
    proof {
        reveal(u16_le);
        assert(out@ =~= old(out)@ + u16_le(v as int));
    }
}

pub fn push_u32(out: &mut Vec<u8>, v: u32)
    ensures
        final(out)@ == old(out)@ + u32_le(v as int),
{
    out.push((v % 256) as u8);
    out.push((v / 256 % 256) as u8);
    out.push((v / 65536 % 256) as u8);
    out.push((v / 16777216) as u8);
    proof {
        reveal(u32_le);
        assert(out@ =~= old(out)@ + u32_le(v as int));
    }
}

/// The word with the same bits as `v`.
pub fn to_word(v: i32) -> (w: u32)
    ensures
        w == word(v as int),
{
    if v < 0 {
        (v as i64 + 0x1_0000_0000) as u32
    } else {
        v as u32
    }
}

pub fn push_i32(out: &mut Vec<u8>, v: i32)
    ensures
        final(out)@ == old(out)@ + i32_le(v as int),
{
    push_u32(out, to_word(v));
}

/// The low 32 bits of `v`.
pub fn low_word(v: i64) -> (w: u32)
    ensures
        w == v as int % 0x1_0000_0000,
{
    let r: i64 = v % WORD_LIMIT;
    if r < 0 {
        (r + WORD_LIMIT) as u32
    } else {
        r as u32
    }
}

/// The low 32 bits of a length.
pub fn low_word_of_len(n: usize) -> (w: u32)
    ensures
        w == n as int % 0x1_0000_0000,
{
    (n as u64 % 0x1_0000_0000) as u32
}

} // verus!
