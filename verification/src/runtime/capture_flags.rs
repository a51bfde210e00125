//! The trailer that a captured bitmap carries behind its pixels: seven 32-bit
//! words, then the flags as 32-bit numbers, then the strings as UTF-16 code
//! units, each string closed by a zero unit.

use vstd::prelude::*;
use crate::bytes;
use crate::bytes::{low_word, low_word_of_len, push_u16, push_u32, read_i32, read_u16, read_u32};
use crate::text;
use crate::text::text_of_units;
use crate::text_parts;

verus! {

/// Why a bitmap holds no capture data.
#[derive(Debug, Clone, Copy, PartialEq, Eq, Structural)]
pub enum CaptureError {
    /// The bytes do not begin like a bitmap.
    NotBitmap,
    /// The bitmap's own length lies outside the file.
    InvalidLength,
    /// Nothing, or too little, follows the bitmap.
    NoCaptureFlags,
    /// A word of the header is negative.
    NegativeField,
    /// The header does not fit the trailer.
    InvalidHeader,
    /// The flags or the strings lie outside the trailer.
    OutsideTrailer,
    /// More items are announced than the bytes can hold.
    InvalidItemCount,
    /// A string has no closing zero.
    UnterminatedString,
    /// A string is not well-formed UTF-16.
    InvalidString,
}

/// What a capture trailer holds.
pub struct Capture {
    pub flags: Seq<i64>,
    pub strings: Seq<Seq<char>>,
}

/// Words one after another, each as four bytes.
pub open spec fn words_le(words: Seq<int>) -> Seq<u8> {
    Seq::new(4 * words.len(), |i: int| bytes::u32_le(words[i / 4])[i % 4])
}

/// Code units one after another, each as two bytes.
pub open spec fn units_le(units: Seq<u16>) -> Seq<u8> {
    Seq::new(2 * units.len(), |i: int| bytes::u16_le(units[i / 2] as int)[i % 2])
}

/// The low 32 bits of every flag.
pub open spec fn flag_words(flags: Seq<i64>) -> Seq<int> {
    Seq::new(flags.len(), |i: int| flags[i] as int % 0x1_0000_0000)
}

/// The code units of all strings, each closed by a zero.
pub open spec fn string_units(strings: Seq<Seq<char>>) -> Seq<u16>
    decreases strings.len(),
{
    if strings.len() == 0 {
        Seq::empty()
    } else {
        string_units(strings.drop_last()) + text::utf16(strings.last()).push(0)
    }
}

/// The seven words of the header.
pub open spec fn header_words(flags: Seq<i64>, strings: Seq<Seq<char>>) -> Seq<int> {
    let n = flags.len() as int;
    seq![
        28,
        28,
        (4 * n) % 0x1_0000_0000,
        n % 0x1_0000_0000,
        (28 + 4 * n) % 0x1_0000_0000,
        (2 * string_units(strings).len()) as int % 0x1_0000_0000,
        strings.len() as int % 0x1_0000_0000,
    ]
}

/// The trailer of the given flags and strings.
pub open spec fn trailer(flags: Seq<i64>, strings: Seq<Seq<char>>) -> Seq<u8> {
    words_le(header_words(flags, strings)) + words_le(flag_words(flags)) + units_le(
        string_units(strings),
    )
}

/// The place of the first zero, or the length where there is none.
pub open spec fn first_zero(units: Seq<u16>) -> int
    decreases units.len(),
{
    if units.len() == 0 || units[0] == 0 {
        0
    } else {
        1 + first_zero(units.drop_first())
    }
}

/// `n` strings from the front of `units`.
pub open spec fn split_strings(units: Seq<u16>, n: int) -> Result<Seq<Seq<char>>, CaptureError>
    decreases n,
{
    if n <= 0 {
        Ok(Seq::empty())
    } else {
        let z = first_zero(units);
        if z >= units.len() {
            Err(CaptureError::UnterminatedString)
        } else if !text::valid_utf16(units.take(z)) {
            Err(CaptureError::InvalidString)
        } else {
            match split_strings(units.skip(z + 1), n - 1) {
                Ok(rest) => Ok(seq![text::decoded_lossy(units.take(z))] + rest),
                Err(e) => Err(e),
            }
        }
    }
}

/// Word `i` of a trailer's header.
pub open spec fn field(t: Seq<u8>, i: int) -> int {
    bytes::i32_at(t, 4 * i)
}

/// `n` code units of `t` from `at` on.
pub open spec fn unit_list(t: Seq<u8>, at: int, n: int) -> Seq<u16> {
    Seq::new(n as nat, |i: int| bytes::u16_at(t, at + 2 * i) as u16)
}

/// `n` flags of `t` from `at` on.
pub open spec fn flag_list(t: Seq<u8>, at: int, n: int) -> Seq<i64> {
    Seq::new(n as nat, |i: int| bytes::i32_at(t, at + 4 * i) as i64)
}

/// What the trailer `t` holds.
pub open spec fn decoded_trailer(t: Seq<u8>) -> Result<Capture, CaptureError> {
    if t.len() < 28 {
        Err(CaptureError::NoCaptureFlags)
    } else if exists|i: int| 0 <= i < 7 && #[trigger] field(t, i) < 0 {
        Err(CaptureError::NegativeField)
    } else if field(t, 0) < 28 || field(t, 0) > t.len() {
        Err(CaptureError::InvalidHeader)
    } else if field(t, 1) < field(t, 0) || field(t, 1) + field(t, 2) > t.len() || field(t, 4)
        < field(t, 0) || field(t, 4) + field(t, 5) > t.len() {
        Err(CaptureError::OutsideTrailer)
    } else if field(t, 3) > field(t, 2) / 4 || field(t, 6) > field(t, 5) / 2 || field(t, 5) % 2
        != 0 {
        Err(CaptureError::InvalidItemCount)
    } else {
        match split_strings(unit_list(t, field(t, 4), field(t, 5) / 2), field(t, 6)) {
            Ok(strings) => Ok(
                Capture { flags: flag_list(t, field(t, 1), field(t, 3)), strings: strings },
            ),
            Err(e) => Err(e),
        }
    }
}

/// What the capture in the bitmap `bmp` holds.
pub open spec fn decoded(bmp: Seq<u8>) -> Result<Capture, CaptureError> {
    if bmp.len() < 14 || bmp[0] != 0x42 || bmp[1] != 0x4D {
        Err(CaptureError::NotBitmap)
    } else if bytes::u32_at(bmp, 2) < 14 || bytes::u32_at(bmp, 2) > bmp.len() {
        Err(CaptureError::InvalidLength)
    } else {
        decoded_trailer(bmp.skip(bytes::u32_at(bmp, 2)))
    }
}

proof fn lemma_words_push(words: Seq<int>, w: int)
    ensures
        words_le(words.push(w)) =~= words_le(words) + bytes::u32_le(w),
{
    bytes::lemma_le_len(w);
}

proof fn lemma_units_push(units: Seq<u16>, u: u16)
    ensures
        units_le(units.push(u)) =~= units_le(units) + bytes::u16_le(u as int),
{
    bytes::lemma_le_len(u as int);
}

/// Appends words, each as four bytes.
fn push_words(out: &mut Vec<u8>, words: &[u32])
    ensures
        final(out)@ == old(out)@ + words_le(words@.map_values(|w: u32| w as int)),
{
    let ghost all = words@.map_values(|w: u32| w as int);
    let mut i: usize = 0;
    proof {
        assert(out@ =~= old(out)@ + words_le(all.take(0)));
    }
    while i < words.len()
        invariant
            i <= words@.len(),
            all == words@.map_values(|w: u32| w as int),
            out@ == old(out)@ + words_le(all.take(i as int)),
        decreases words@.len() - i,
    {
        push_u32(out, words[i]);
        proof {
            lemma_words_push(all.take(i as int), all[i as int]);
            assert(all.take(i as int).push(all[i as int]) =~= all.take(i + 1));
            assert(out@ =~= old(out)@ + words_le(all.take(i + 1)));
        }
        i = i + 1;
    }
    proof {
        assert(all.take(i as int) =~= all);
    }
}

/// Appends code units, each as two bytes.
fn push_all_units(out: &mut Vec<u8>, units: &[u16])
    ensures
        final(out)@ == old(out)@ + units_le(units@),
{
    let mut i: usize = 0;
    proof {
        assert(out@ =~= old(out)@ + units_le(units@.take(0)));
    }
    while i < units.len()
        invariant
            i <= units@.len(),
            out@ == old(out)@ + units_le(units@.take(i as int)),
        decreases units@.len() - i,
    {
        push_u16(out, units[i]);
        proof {
            lemma_units_push(units@.take(i as int), units@[i as int]);
            assert(units@.take(i as int).push(units@[i as int]) =~= units@.take(i + 1));
            assert(out@ =~= old(out)@ + units_le(units@.take(i + 1)));
        }
        i = i + 1;
    }
    proof {
        assert(units@.take(i as int) =~= units@);
    }
}

fn collect_units(strings: &[String]) -> (units: Vec<u16>)
    ensures
        units@ == string_units(text_parts::texts(strings@)),
{
    let mut units: Vec<u16> = Vec::new();
    let ghost all = text_parts::texts(strings@);
    let mut i: usize = 0;
    proof {
        assert(all.take(0) =~= Seq::<Seq<char>>::empty());
    }
    while i < strings.len()
        invariant
            all == text_parts::texts(strings@),
            i <= strings@.len(),
            units@ == string_units(all.take(i as int)),
        decreases strings@.len() - i,
    {
        let mut own = text::units_of(strings[i].as_str());
        own.push(0);
        proof {
            assert(all.take(i + 1).drop_last() =~= all.take(i as int));
            assert(all.take(i + 1).last() == strings@[i as int]@);
        }
        units.append(&mut own);
        i = i + 1;
    }
    proof {
        assert(all.take(i as int) =~= all);
    }
    units
}

/// The trailer for the given flags and strings. Of a flag only the low 32 bits
/// are kept.
pub fn encode(flags: &[i64], strings: &[String]) -> (out: Vec<u8>)
    ensures
        out@ == trailer(flags@, text_parts::texts(strings@)),
{
    let units = collect_units(strings);
    let n: u32 = low_word_of_len(flags.len());
    let flag_bytes: u32 = n.wrapping_mul(4);
    let string_offset: u32 = flag_bytes.wrapping_add(28);
    let string_bytes: u32 = low_word_of_len(units.len()).wrapping_mul(2);
    let count: u32 = low_word_of_len(strings.len());
    let mut out: Vec<u8> = Vec::new();
    let header: [u32; 7] = [28, 28, flag_bytes, n, string_offset, string_bytes, count];
    push_words(&mut out, &header);
    proof {
        let words = header@.map_values(|w: u32| w as int);
        lemma_low_words(flags@.len() as int, units@.len() as int);
        assert(words =~= header_words(flags@, text_parts::texts(strings@)));
    }
    let mut kept: Vec<u32> = Vec::new();
    let mut i: usize = 0;
    while i < flags.len()
        invariant
            i <= flags@.len(),
            kept@.len() == i,
            forall|k: int| 0 <= k < i ==> kept@[k] == #[trigger] flags@[k] as int % 0x1_0000_0000,
        decreases flags@.len() - i,
    {
        kept.push(low_word(flags[i]));
        i = i + 1;
    }
    push_words(&mut out, &kept);
    push_all_units(&mut out, &units);
    proof {
        assert(kept@.map_values(|w: u32| w as int) =~= flag_words(flags@));
        assert(out@ =~= trailer(flags@, text_parts::texts(strings@)));
    }
    out
}

/// 32-bit arithmetic that wraps keeps the low 32 bits of what it stands for.
proof fn lemma_low_words(n: int, m: int)
    requires
        0 <= n,
        0 <= m,
    ensures
        ((n % 0x1_0000_0000) * 4) % 0x1_0000_0000 == (4 * n) % 0x1_0000_0000,
        ((4 * n) % 0x1_0000_0000 + 28) % 0x1_0000_0000 == (28 + 4 * n) % 0x1_0000_0000,
        ((m % 0x1_0000_0000) * 2) % 0x1_0000_0000 == (2 * m) % 0x1_0000_0000,
{
    let w = 0x1_0000_0000int;
    let a = n / w;
    let b = (4 * n) / w;
    let c = m / w;
    vstd::arithmetic::div_mod::lemma_mod_multiples_vanish(4 * a, 4 * (n % w), w);
    assert(w * (4 * a) + 4 * (n % w) == 4 * n);
    vstd::arithmetic::div_mod::lemma_mod_multiples_vanish(b, (4 * n) % w + 28, w);
    assert(w * b + ((4 * n) % w + 28) == 28 + 4 * n);
    vstd::arithmetic::div_mod::lemma_mod_multiples_vanish(2 * c, 2 * (m % w), w);
    assert(w * (2 * c) + 2 * (m % w) == 2 * m);
}

/// The `n` strings at the front of `units`.
fn read_strings(units: &[u16], n: usize) -> (r: Result<Vec<String>, CaptureError>)
    ensures
        match (r, split_strings(units@, n as int)) {
            (Ok(v), Ok(s)) => text_parts::texts(v@) == s,
            (Err(a), Err(b)) => a == b,
            _ => false,
        },
{
    let mut out: Vec<String> = Vec::new();
    let mut at: usize = 0;
    let mut left: usize = n;
    proof {
        assert(units@.skip(0) =~= units@);
        assert(text_parts::texts(out@) =~= Seq::<Seq<char>>::empty());
        match split_strings(units@, n as int) {
            Ok(s) => {
                assert(text_parts::texts(out@) + s =~= s);
            },
            Err(_) => {},
        }
    }
    while left > 0
        invariant
            at <= units@.len(),
            match (split_strings(units@.skip(at as int), left as int), split_strings(
                units@,
                n as int,
            )) {
                (Ok(rest), Ok(s)) => text_parts::texts(out@) + rest == s,
                (Err(a), Err(b)) => a == b,
                _ => false,
            },
        decreases left,
    {
        let ghost rest = units@.skip(at as int);
        let mut end: usize = at;
        while end < units.len() && units[end] != 0
            invariant
                at <= end <= units@.len(),
                rest == units@.skip(at as int),
                first_zero(rest) == (end - at) + first_zero(units@.skip(end as int)),
            decreases units@.len() - end,
        {
            proof {
                let here = units@.skip(end as int);
                assert(here[0] == units@[end as int]);
                assert(here.drop_first() =~= units@.skip(end + 1));
            }
            end = end + 1;
        }
        proof {
            if end < units@.len() {
                assert(units@.skip(end as int)[0] == 0);
            }
            assert(first_zero(rest) == end - at);
        }
        if end >= units.len() {
            return Err(CaptureError::UnterminatedString);
        }
        let own = vstd::slice::slice_subrange(units, at, end);
        proof {
            assert(own@ =~= rest.take(end - at));
            assert(rest.skip(end - at + 1) =~= units@.skip(end + 1));
        }
        match text_of_units(own) {
            None => {
                return Err(CaptureError::InvalidString);
            },
            Some(s) => {
                let ghost before = text_parts::texts(out@);
                out.push(s);
                proof {
                    assert(text_parts::texts(out@) =~= before.push(s@));
                    match split_strings(units@.skip(end + 1), left - 1) {
                        Ok(tail) => {
                            assert(text_parts::texts(out@) + tail =~= before + (seq![s@] + tail));
                        },
                        Err(_) => {},
                    }
                }
            },
        }
        at = end + 1;
        left = left - 1;
    }
    proof {
        assert(text_parts::texts(out@) + Seq::<Seq<char>>::empty() =~= text_parts::texts(out@));
    }
    Ok(out)
}

fn decode_trailer(t: &[u8]) -> (r: Result<(Vec<i64>, Vec<String>), CaptureError>)
    ensures
        match (r, decoded_trailer(t@)) {
            (Ok(v), Ok(c)) => v.0@ == c.flags && text_parts::texts(v.1@) == c.strings,
            (Err(a), Err(b)) => a == b,
            _ => false,
        },
{
    if t.len() < 28 {
        return Err(CaptureError::NoCaptureFlags);
    }
    let mut h: Vec<usize> = Vec::new();
    let mut i: usize = 0;
    while i < 7
        invariant
            28 <= t@.len(),
            i <= 7,
            h@.len() == i,
            forall|k: int| 0 <= k < i ==> h@[k] == #[trigger] field(t@, k),
        decreases 7 - i,
    {
        let v: i32 = read_i32(t, i * 4);
        if v < 0 {
            proof {
                assert(field(t@, i as int) < 0);
            }
            return Err(CaptureError::NegativeField);
        }
        h.push(v as usize);
        i = i + 1;
    }
    let size: usize = t.len();
    let h0: usize = h[0];
    let h1: usize = h[1];
    let h2: usize = h[2];
    let h3: usize = h[3];
    let h4: usize = h[4];
    let h5: usize = h[5];
    let h6: usize = h[6];
    proof {
        assert forall|k: int| 0 <= k < 7 implies #[trigger] field(t@, k) >= 0 by {
            assert(h@[k] == field(t@, k));
        }
        assert(h0 == field(t@, 0) && h1 == field(t@, 1) && h2 == field(t@, 2) && h3 == field(
            t@,
            3,
        ) && h4 == field(t@, 4) && h5 == field(t@, 5) && h6 == field(t@, 6));
    }
    if h0 < 28 || h0 > size {
        return Err(CaptureError::InvalidHeader);
    }
    if h1 < h0 || h1 > size || h2 > size - h1 || h4 < h0 || h4 > size || h5 > size - h4 {
        return Err(CaptureError::OutsideTrailer);
    }
    if h3 > h2 / 4 || h6 > h5 / 2 || h5 % 2 != 0 {
        return Err(CaptureError::InvalidItemCount);
    }
    let ghost unit_seq = unit_list(t@, h4 as int, h5 as int / 2);
    let ghost flag_seq = flag_list(t@, h1 as int, h3 as int);
    let mut flags: Vec<i64> = Vec::new();
    let mut n: usize = 0;
    while n < h3
        invariant
            n <= h3 <= h2 / 4,
            h1 + h2 <= t@.len(),
            t@.len() <= usize::MAX,
            flag_seq == flag_list(t@, h1 as int, h3 as int),
            flags@ == flag_seq.take(n as int),
        decreases h3 - n,
    {
        flags.push(read_i32(t, h1 + n * 4) as i64);
        n = n + 1;
        proof {
            assert(flags@ =~= flag_seq.take(n as int));
        }
    }
    let mut units: Vec<u16> = Vec::new();
    n = 0;
    while n < h5 / 2
        invariant
            n <= h5 / 2,
            h4 + h5 <= t@.len(),
            t@.len() <= usize::MAX,
            unit_seq == unit_list(t@, h4 as int, h5 as int / 2),
            units@ == unit_seq.take(n as int),
        decreases h5 / 2 - n,
    {
        units.push(read_u16(t, h4 + n * 2));
        n = n + 1;
        proof {
            assert(units@ =~= unit_seq.take(n as int));
        }
    }
    proof {
        assert(flags@ =~= flag_seq);
        assert(units@ =~= unit_seq);
    }
    match read_strings(&units, h6) {
        Ok(strings) => Ok((flags, strings)),
        Err(e) => Err(e),
    }
}

/// The flags and strings that a captured bitmap carries.
pub fn decode_bmp(bmp: &[u8]) -> (r: Result<(Vec<i64>, Vec<String>), CaptureError>)
    ensures
        match (r, decoded(bmp@)) {
            (Ok(v), Ok(c)) => v.0@ == c.flags && text_parts::texts(v.1@) == c.strings,
            (Err(a), Err(b)) => a == b,
            _ => false,
        },
{
    if bmp.len() < 14 || bmp[0] != 0x42 || bmp[1] != 0x4D {
        return Err(CaptureError::NotBitmap);
    }
    let base: u32 = read_u32(bmp, 2);
    if base < 14 || base as usize > bmp.len() {
        return Err(CaptureError::InvalidLength);
    }
    let t = vstd::slice::slice_subrange(bmp, base as usize, bmp.len());
    proof {
        assert(t@ =~= bmp@.skip(base as int));
    }
    decode_trailer(t)
}

proof fn lemma_words_at(words: Seq<int>, i: int)
    requires
        0 <= i < words.len(),
        forall|k: int| 0 <= k < words.len() ==> 0 <= #[trigger] words[k] < 0x1_0000_0000,
    ensures
        words_le(words).len() == 4 * words.len(),
        bytes::u32_at(words_le(words), 4 * i) == words[i],
{
    let b = words_le(words);
    bytes::lemma_u32_le(words[i]);
    assert(b[4 * i] == bytes::u32_le(words[i])[0]);
    assert(b[4 * i + 1] == bytes::u32_le(words[i])[1]);
    assert(b[4 * i + 2] == bytes::u32_le(words[i])[2]);
    assert(b[4 * i + 3] == bytes::u32_le(words[i])[3]);
}

/// A text without zero characters has no zero code unit.
proof fn lemma_no_zero_unit(s: Seq<char>)
    requires
        !s.contains('\0'),
    ensures
        forall|i: int| 0 <= i < text::utf16(s).len() ==> #[trigger] text::utf16(s)[i] != 0,
    decreases s.len(),
{
    if s.len() > 0 {
        let rest = s.drop_first();
        assert forall|k: int| 0 <= k < rest.len() implies rest[k] != '\0' by {
            assert(rest[k] == s[k + 1]);
            assert(s.contains(s[k + 1]));
        }
        lemma_no_zero_unit(rest);
        assert(s.contains(s[0]));
        vstd::utf8::char_is_scalar(s[0]);
        let head = text::char_units(s[0]);
        let v = s[0] as u32;
        vstd::utf8::char_u32_cast(s[0], v);
        assert(0u32 as char == '\0');
        assert(v != 0);
        if v < 0x10000 {
            assert(head[0] == v);
        } else {
            let k = v - 0x10000;
            assert(0 <= k / 0x400 < 0x400);
            assert(head[0] == 0xD800 + k / 0x400);
            assert(head[1] == 0xDC00 + k % 0x400);
        }
        assert forall|i: int| 0 <= i < text::utf16(s).len() implies #[trigger] text::utf16(s)[i]
            != 0 by {
            if i < head.len() {
                assert(text::utf16(s)[i] == head[i]);
            } else {
                assert(text::utf16(s)[i] == text::utf16(rest)[i - head.len()]);
            }
        }
    }
}

proof fn lemma_first_zero(units: Seq<u16>, n: int)
    requires
        0 <= n < units.len(),
        units[n] == 0,
        forall|i: int| 0 <= i < n ==> units[i] != 0,
    ensures
        first_zero(units) == n,
    decreases n,
{
    if n > 0 {
        let rest = units.drop_first();
        assert(rest[n - 1] == units[n]);
        assert forall|i: int| 0 <= i < n - 1 implies rest[i] != 0 by {
            assert(rest[i] == units[i + 1]);
        }
        lemma_first_zero(rest, n - 1);
    }
}

/// The strings are found again where they stand, whatever follows.
proof fn lemma_split(strings: Seq<Seq<char>>)
    requires
        forall|i: int| 0 <= i < strings.len() ==> !(#[trigger] strings[i]).contains('\0'),
    ensures
        split_strings(string_units(strings), strings.len() as int) == Ok::<
            Seq<Seq<char>>,
            CaptureError,
        >(strings),
    decreases strings.len(),
{
    if strings.len() == 0 {
        assert(strings =~= Seq::<Seq<char>>::empty());
    } else {
        let first = strings[0];
        let rest = strings.drop_first();
        let units = string_units(strings);
        lemma_units_front(strings);
        let own = text::utf16(first);
        lemma_no_zero_unit(first);
        assert forall|i: int| 0 <= i < own.len() implies units[i] != 0 by {
            assert(units[i] == own[i]);
        }
        assert(units[own.len() as int] == 0);
        lemma_first_zero(units, own.len() as int);
        assert(units.take(own.len() as int) =~= own);
        assert(units.skip(own.len() as int + 1) =~= string_units(rest));
        text::utf16_round_trip(first);
        assert forall|i: int| 0 <= i < rest.len() implies !(#[trigger] rest[i]).contains('\0') by {
            assert(rest[i] == strings[i + 1]);
        }
        lemma_split(rest);
        assert(seq![first] + rest =~= strings);
    }
}

proof fn lemma_units_front(strings: Seq<Seq<char>>)
    requires
        strings.len() > 0,
    ensures
        string_units(strings) == text::utf16(strings[0]).push(0) + string_units(
            strings.drop_first(),
        ),
    decreases strings.len(),
{
    let own = text::utf16(strings[0]).push(0);
    if strings.len() == 1 {
        assert(strings.drop_last() =~= Seq::<Seq<char>>::empty());
        assert(strings.drop_first() =~= Seq::<Seq<char>>::empty());
        assert(string_units(strings) =~= own + string_units(strings.drop_first()));
    } else {
        lemma_units_front(strings.drop_last());
        assert(strings.drop_last().drop_first() =~= strings.drop_first().drop_last());
        assert(strings.drop_first().last() == strings.last());
        assert(string_units(strings) =~= own + string_units(strings.drop_first()));
    }
}

/// The header of a trailer that is not too long reads as it was written.
proof fn lemma_trailer_fields(flags: Seq<i64>, strings: Seq<Seq<char>>)
    requires
        trailer(flags, strings).len() <= i32::MAX,
    ensures
        ({
            let t = trailer(flags, strings);
            let m = string_units(strings).len();
            &&& t.len() == 28 + 4 * flags.len() + 2 * m
            &&& field(t, 0) == 28
            &&& field(t, 1) == 28
            &&& field(t, 2) == 4 * flags.len()
            &&& field(t, 3) == flags.len()
            &&& field(t, 4) == 28 + 4 * flags.len()
            &&& field(t, 5) == 2 * m
            &&& field(t, 6) == strings.len()
        }),
{
    let t = trailer(flags, strings);
    let words = header_words(flags, strings);
    let h = words_le(words);
    lemma_count_bound(strings);
    assert forall|i: int| 0 <= i < 7 implies #[trigger] field(t, i) == words[i] by {
        lemma_words_at(words, i);
        assert(t[4 * i] == h[4 * i]);
        assert(t[4 * i + 1] == h[4 * i + 1]);
        assert(t[4 * i + 2] == h[4 * i + 2]);
        assert(t[4 * i + 3] == h[4 * i + 3]);
    }
}

proof fn lemma_trailer_unit(flags: Seq<i64>, strings: Seq<Seq<char>>, i: int)
    requires
        0 <= i < string_units(strings).len(),
    ensures
        bytes::u16_at(trailer(flags, strings), 28 + 4 * flags.len() + 2 * i) == string_units(
            strings,
        )[i],
{
    let t = trailer(flags, strings);
    let su = string_units(strings);
    let u = units_le(su);
    let at = 28 + 4 * flags.len() + 2 * i;
    bytes::lemma_u16_le(su[i] as int);
    assert(t[at] == u[2 * i]);
    assert(t[at + 1] == u[2 * i + 1]);
    assert(u[2 * i] == bytes::u16_le(su[i] as int)[0]);
    assert(u[2 * i + 1] == bytes::u16_le(su[i] as int)[1]);
}

proof fn lemma_trailer_flag(flags: Seq<i64>, strings: Seq<Seq<char>>, i: int)
    requires
        0 <= i < flags.len(),
        i32::MIN <= flags[i] <= i32::MAX,
    ensures
        bytes::i32_at(trailer(flags, strings), 28 + 4 * i) == flags[i],
{
    let t = trailer(flags, strings);
    let f = words_le(flag_words(flags));
    lemma_words_at(flag_words(flags), i);
    let at = 28 + 4 * i;
    assert(t[at] == f[4 * i]);
    assert(t[at + 1] == f[4 * i + 1]);
    assert(t[at + 2] == f[4 * i + 2]);
    assert(t[at + 3] == f[4 * i + 3]);
    assert(flag_words(flags)[i] == bytes::word(flags[i] as int));
}

/// What a trailer carries does not change with bytes behind it that it does
/// not speak of.
proof fn lemma_more_bytes(t: Seq<u8>, behind: Seq<u8>)
    requires
        decoded_trailer(t) is Ok,
    ensures
        decoded_trailer(t + behind) == decoded_trailer(t),
{
    let all = t + behind;
    assert forall|i: int| 0 <= i < 7 implies #[trigger] field(all, i) == field(t, i) by {
        assert(all[4 * i] == t[4 * i] && all[4 * i + 1] == t[4 * i + 1] && all[4 * i + 2] == t[4 * i
            + 2] && all[4 * i + 3] == t[4 * i + 3]);
    }
    let h1 = field(t, 1);
    let h4 = field(t, 4);
    assert(flag_list(all, h1, field(t, 3)) =~= flag_list(t, h1, field(t, 3)));
    assert(unit_list(all, h4, field(t, 5) / 2) =~= unit_list(t, h4, field(t, 5) / 2));
}

/// Decoding gives back what was encoded: a bitmap `image` of the length that
/// it states, followed by the trailer of flags that fit 32 bits and of strings
/// without zero characters, decodes to those flags and strings, whatever bytes
/// stand behind the trailer.
pub proof fn capture_round_trip(
    image: Seq<u8>,
    flags: Seq<i64>,
    strings: Seq<Seq<char>>,
    behind: Seq<u8>,
)
    requires
        image.len() >= 14,
        image[0] == 0x42,
        image[1] == 0x4D,
        bytes::u32_at(image, 2) == image.len(),
        forall|i: int| 0 <= i < flags.len() ==> i32::MIN <= #[trigger] flags[i] <= i32::MAX,
        forall|i: int| 0 <= i < strings.len() ==> !(#[trigger] strings[i]).contains('\0'),
        trailer(flags, strings).len() <= i32::MAX,
    ensures
        decoded(image + trailer(flags, strings) + behind) == Ok::<Capture, CaptureError>(
            Capture { flags: flags, strings: strings },
        ),
{
    let t = trailer(flags, strings);
    let all = image + t + behind;
    assert(bytes::u32_at(all, 2) == bytes::u32_at(image, 2));
    assert(all.skip(image.len() as int) =~= t + behind);
    lemma_decoded_trailer(flags, strings);
    lemma_more_bytes(t, behind);
}

proof fn lemma_unit_list(flags: Seq<i64>, strings: Seq<Seq<char>>)
    ensures
        unit_list(
            trailer(flags, strings),
            28 + 4 * flags.len() as int,
            string_units(strings).len() as int,
        ) == string_units(strings),
{
    let su = string_units(strings);
    let units = unit_list(
        trailer(flags, strings),
        28 + 4 * flags.len() as int,
        su.len() as int,
    );
    assert forall|i: int| 0 <= i < su.len() implies units[i] == #[trigger] su[i] by {
        lemma_trailer_unit(flags, strings, i);
    }
    assert(units =~= su);
}

proof fn lemma_flag_list(flags: Seq<i64>, strings: Seq<Seq<char>>)
    requires
        forall|i: int| 0 <= i < flags.len() ==> i32::MIN <= #[trigger] flags[i] <= i32::MAX,
    ensures
        flag_list(trailer(flags, strings), 28, flags.len() as int) == flags,
{
    let got = flag_list(trailer(flags, strings), 28, flags.len() as int);
    assert forall|i: int| 0 <= i < flags.len() implies got[i] == #[trigger] flags[i] by {
        lemma_trailer_flag(flags, strings, i);
    }
    assert(got =~= flags);
}

proof fn lemma_decoded_trailer(flags: Seq<i64>, strings: Seq<Seq<char>>)
    requires
        forall|i: int| 0 <= i < flags.len() ==> i32::MIN <= #[trigger] flags[i] <= i32::MAX,
        forall|i: int| 0 <= i < strings.len() ==> !(#[trigger] strings[i]).contains('\0'),
        trailer(flags, strings).len() <= i32::MAX,
    ensures
        decoded_trailer(trailer(flags, strings)) == Ok::<Capture, CaptureError>(
            Capture { flags: flags, strings: strings },
        ),
{
    lemma_count_bound(strings);
    lemma_trailer_fields(flags, strings);
    lemma_unit_list(flags, strings);
    lemma_flag_list(flags, strings);
    lemma_split(strings);
    lemma_decoded_parts(trailer(flags, strings), flags, strings, string_units(strings));
}

/// What a trailer with the fields of a written one decodes to.
proof fn lemma_decoded_parts(
    t: Seq<u8>,
    flags: Seq<i64>,
    strings: Seq<Seq<char>>,
    units: Seq<u16>,
)
    requires
        t.len() == 28 + 4 * flags.len() + 2 * units.len(),
        field(t, 0) == 28,
        field(t, 1) == 28,
        field(t, 2) == 4 * flags.len(),
        field(t, 3) == flags.len(),
        field(t, 4) == 28 + 4 * flags.len(),
        field(t, 5) == 2 * units.len(),
        field(t, 6) == strings.len(),
        strings.len() <= units.len(),
        unit_list(t, 28 + 4 * flags.len() as int, units.len() as int) == units,
        flag_list(t, 28, flags.len() as int) == flags,
        split_strings(units, strings.len() as int) == Ok::<Seq<Seq<char>>, CaptureError>(strings),
    ensures
        decoded_trailer(t) == Ok::<Capture, CaptureError>(Capture { flags, strings }),
{
    assert forall|i: int| 0 <= i < 7 implies #[trigger] field(t, i) >= 0 by {
        if i == 0 {
        } else if i == 1 {
        } else if i == 2 {
        } else if i == 3 {
        } else if i == 4 {
        } else if i == 5 {
        }
    }
    assert(field(t, 5) / 2 == units.len());
    assert(field(t, 2) / 4 == flags.len());
}

/// There are no more strings than code units.
proof fn lemma_count_bound(strings: Seq<Seq<char>>)
    ensures
        strings.len() <= string_units(strings).len(),
    decreases strings.len(),
{
    if strings.len() > 0 {
        lemma_count_bound(strings.drop_last());
    }
}

/// Behind a picture the flags stand in words of four bytes, from the twenty-eighth byte on, and
/// the front of what is stored tells where they begin and how many flags and texts there are.
pub proof fn flags_stand_behind_the_front(flags: Seq<i64>, strings: Seq<Seq<char>>, i: int)
    requires
        0 <= i < flags.len(),
        i32::MIN <= flags[i] <= i32::MAX,
        trailer(flags, strings).len() <= i32::MAX,
    ensures
        bytes::i32_at(trailer(flags, strings), 28 + 4 * i) == flags[i],
        bytes::i32_at(trailer(flags, strings), 4) == 28,
        bytes::i32_at(trailer(flags, strings), 12) == flags.len(),
        bytes::i32_at(trailer(flags, strings), 16) == 28 + 4 * flags.len(),
{
    let t = trailer(flags, strings);
    let front = header_words(flags, strings);
    let words = flag_words(flags);
    let n: int = flags.len() as int;
    assert(front.len() == 7);
    assert(words_le(front).len() == 28);
    assert(t.len() >= 28 + 4 * n);
    lemma_word_at(front, 1);
    lemma_word_at(front, 3);
    lemma_word_at(front, 4);
    lemma_word_at(words, i);
    assert forall|j: int| 0 <= j < 28 implies #[trigger] t[j] == words_le(front)[j] by {
    }
    assert forall|j: int| 0 <= j < 4 * n implies t[28 + j] == #[trigger] words_le(words)[j] by {
    }
    assert(words_le(words)[4 * i] == t[28 + 4 * i]);
    assert(words_le(words)[4 * i + 1] == t[28 + 4 * i + 1]);
    assert(words_le(words)[4 * i + 2] == t[28 + 4 * i + 2]);
    assert(words_le(words)[4 * i + 3] == t[28 + 4 * i + 3]);
    assert(bytes::u32_at(t, 28 + 4 * i) == words[i]);
    assert(bytes::u32_at(t, 4) == 28);
    assert(bytes::u32_at(t, 12) == n);
    assert(bytes::u32_at(t, 16) == 28 + 4 * n);
}

proof fn lemma_word_at(words: Seq<int>, i: int)
    requires
        0 <= i < words.len(),
        0 <= words[i] < 0x1_0000_0000,
    ensures
        bytes::u32_at(words_le(words), 4 * i) == words[i],
{
    bytes::lemma_u32_le(words[i]);
    let b = words_le(words);
    assert(b[4 * i] == bytes::u32_le(words[i])[0]);
    assert(b[4 * i + 1] == bytes::u32_le(words[i])[1]);
    assert(b[4 * i + 2] == bytes::u32_le(words[i])[2]);
    assert(b[4 * i + 3] == bytes::u32_le(words[i])[3]);
}

} // verus!
