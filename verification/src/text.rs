//! Text as sequences of characters, bytes and UTF-16 code units.

use vstd::prelude::*;
use vstd::utf8;

verus! {

/// `String::push` puts one character behind the others.
pub assume_specification[ String::push ](s: &mut String, c: char)
    ensures
        final(s)@ == old(s)@.push(c),
;

/// `char::from_u32` gives the character with the number `v`, and `None` for
/// a number that is no Unicode scalar value.
pub assume_specification[ char::from_u32 ](v: u32) -> (r: Option<char>)
    ensures
        r == (if utf8::is_scalar(v) {
            Some(v as char)
        } else {
            None
        }),
;

/// `String::from_utf8` makes text of bytes that are valid UTF-8, and fails on
/// all others.
#[verifier::external_body]
pub(crate) fn string_from_utf8(bytes: Vec<u8>) -> (r: Option<String>)
    ensures
        r is Some <==> utf8::valid_utf8(bytes@),
        r matches Some(s) ==> s@ == utf8::decode_utf8(bytes@),
{
    String::from_utf8(bytes).ok()
}

/// The character that a UTF-16 decoder puts in place of half a pair.
pub const REPLACEMENT: char = '\u{FFFD}';

/// The characters of a text.
pub fn chars_of(s: &str) -> (chars: Vec<char>)
    ensures
        chars@ == s@,
{
    let mut chars: Vec<char> = Vec::new();
    for c in it: s.chars()
        invariant
            it.seq() == s@,
            chars@ == s@.take(it.index() as int),
    {
        chars.push(c);
        proof {
            assert(chars@ =~= s@.take(it.index() + 1));
        }
    }
    proof {
        assert(chars@ =~= s@);
    }
    chars
}

/// The text made of the given characters.
pub fn text_of(chars: &[char]) -> (s: String)
    ensures
        s@ == chars@,
{
    let mut s = String::new();
    let mut i: usize = 0;
    while i < chars.len()
        invariant
            i <= chars@.len(),
            s@ == chars@.take(i as int),
        decreases chars@.len() - i,
    {
        s.push(chars[i]);
        i = i + 1;
        proof {
            assert(s@ =~= chars@.take(i as int));
        }
    }
    proof {
        assert(s@ =~= chars@);
    }
    s
}

/// Whether two texts are the same, character by character.
pub fn same_text(a: &str, b: &str) -> (r: bool)
    ensures
        r == (a@ == b@),
{
    let x = a.as_bytes();
    let y = b.as_bytes();
    proof {
        utf8::encode_utf8_decode_utf8(a@);
        utf8::encode_utf8_decode_utf8(b@);
    }
    if x.len() != y.len() {
        return false;
    }
    let mut i: usize = 0;
    while i < x.len()
        invariant
            i <= x@.len(),
            x@.len() == y@.len(),
            x@ == utf8::encode_utf8(a@),
            y@ == utf8::encode_utf8(b@),
            forall|k: int| 0 <= k < i ==> x@[k] == y@[k],
        decreases x@.len() - i,
    {
        if x[i] != y[i] {
            return false;
        }
        i = i + 1;
    }
    proof {
        assert(x@ =~= y@);
    }
    true
}

/// `c` with an ASCII capital letter made small.
pub open spec fn lower_char(c: char) -> char {
    if 'A' <= c <= 'Z' {
        (c as u32 + 32) as char
    } else {
        c
    }
}

/// `c` with an ASCII small letter made capital.
pub open spec fn upper_char(c: char) -> char {
    if 'a' <= c <= 'z' {
        (c as u32 - 32) as char
    } else {
        c
    }
}

pub open spec fn lower(s: Seq<char>) -> Seq<char> {
    s.map_values(|c: char| lower_char(c))
}

pub open spec fn upper(s: Seq<char>) -> Seq<char> {
    s.map_values(|c: char| upper_char(c))
}

pub fn to_lower_char(c: char) -> (r: char)
    ensures
        r == lower_char(c),
{
    if 'A' <= c && c <= 'Z' {
        match char::from_u32(c as u32 + 32) {
            Some(d) => d,
            None => c,
        }
    } else {
        c
    }
}

pub fn to_upper_char(c: char) -> (r: char)
    ensures
        r == upper_char(c),
{
    if 'a' <= c && c <= 'z' {
        match char::from_u32(c as u32 - 32) {
            Some(d) => d,
            None => c,
        }
    } else {
        c
    }
}

/// The characters of a text, capital ASCII letters made small.
pub fn lower_chars(s: &str) -> (r: Vec<char>)
    ensures
        r@ == lower(s@),
{
    let chars = chars_of(s);
    let mut r: Vec<char> = Vec::new();
    let mut i: usize = 0;
    while i < chars.len()
        invariant
            chars@ == s@,
            i <= chars@.len(),
            r@ == lower(s@).take(i as int),
        decreases chars@.len() - i,
    {
        r.push(to_lower_char(chars[i]));
        i = i + 1;
        proof {
            assert(r@ =~= lower(s@).take(i as int));
        }
    }
    proof {
        assert(r@ =~= lower(s@));
    }
    r
}

/// Whether two texts are the same but for the case of ASCII letters.
pub fn same_ignoring_case(a: &str, b: &str) -> (r: bool)
    ensures
        r == (lower(a@) == lower(b@)),
{
    let x = lower_chars(a);
    let y = lower_chars(b);
    if x.len() != y.len() {
        return false;
    }
    let mut i: usize = 0;
    while i < x.len()
        invariant
            i <= x@.len(),
            x@.len() == y@.len(),
            x@ == lower(a@),
            y@ == lower(b@),
            forall|k: int| 0 <= k < i ==> x@[k] == y@[k],
        decreases x@.len() - i,
    {
        if x[i] != y[i] {
            return false;
        }
        i = i + 1;
    }
    proof {
        assert(x@ =~= y@);
    }
    true
}

/// The UTF-16 code units of one character.
pub open spec fn char_units(c: char) -> Seq<u16> {
    let v = c as u32 as int;
    if v < 0x10000 {
        seq![v as u16]
    } else {
        seq![
            (0xD800 + (v - 0x10000) / 0x400) as u16,
            (0xDC00 + (v - 0x10000) % 0x400) as u16,
        ]
    }
}

/// The UTF-16 code units of a text.
pub open spec fn utf16(s: Seq<char>) -> Seq<u16>
    decreases s.len(),
{
    if s.len() == 0 {
        Seq::empty()
    } else {
        char_units(s[0]) + utf16(s.drop_first())
    }
}

/// Whether a code unit is the first half of a pair.
pub open spec fn is_high(u: u16) -> bool {
    0xD800 <= u < 0xDC00
}

/// Whether a code unit is the second half of a pair.
pub open spec fn is_low(u: u16) -> bool {
    0xDC00 <= u < 0xE000
}

/// The character of a pair of code units.
pub open spec fn pair_char(high: u16, low: u16) -> char {
    (0x10000 + (high - 0xD800) * 0x400 + (low - 0xDC00)) as u32 as char
}

/// The text of UTF-16 code units; half a pair that stands alone becomes the
/// replacement character.
pub open spec fn decoded_lossy(units: Seq<u16>) -> Seq<char>
    decreases units.len(),
{
    if units.len() == 0 {
        Seq::empty()
    } else if is_high(units[0]) && units.len() >= 2 && is_low(units[1]) {
        seq![pair_char(units[0], units[1])] + decoded_lossy(units.skip(2))
    } else if is_high(units[0]) || is_low(units[0]) {
        seq![REPLACEMENT] + decoded_lossy(units.skip(1))
    } else {
        seq![units[0] as u32 as char] + decoded_lossy(units.skip(1))
    }
}

/// Whether every half of a pair has its other half.
pub open spec fn valid_utf16(units: Seq<u16>) -> bool
    decreases units.len(),
{
    if units.len() == 0 {
        true
    } else if is_high(units[0]) {
        units.len() >= 2 && is_low(units[1]) && valid_utf16(units.skip(2))
    } else {
        !is_low(units[0]) && valid_utf16(units.skip(1))
    }
}

/// Code units of two texts one after the other.
pub proof fn lemma_utf16_concat(a: Seq<char>, b: Seq<char>)
    ensures
        utf16(a + b) == utf16(a) + utf16(b),
    decreases a.len(),
{
    if a.len() == 0 {
        assert(a + b =~= b);
        assert(utf16(a) + utf16(b) =~= utf16(b));
    } else {
        assert((a + b).drop_first() =~= a.drop_first() + b);
        lemma_utf16_concat(a.drop_first(), b);
        assert(utf16(a + b) =~= utf16(a) + utf16(b));
    }
}

pub proof fn lemma_utf16_push(s: Seq<char>, c: char)
    ensures
        utf16(s.push(c)) == utf16(s) + char_units(c),
{
    let one = seq![c];
    assert(s.push(c) =~= s + one);
    lemma_utf16_concat(s, one);
    assert(one.drop_first() =~= Seq::<char>::empty());
    assert(utf16(one) =~= char_units(c)) by {
        assert(utf16(one) == char_units(one[0]) + utf16(one.drop_first()));
    }
}

/// Decoding the code units of a text gives the text back.
pub proof fn utf16_round_trip(s: Seq<char>)
    ensures
        decoded_lossy(utf16(s)) == s,
        valid_utf16(utf16(s)),
    decreases s.len(),
{
    if s.len() > 0 {
        let c = s[0];
        let rest = s.drop_first();
        let units = utf16(s);
        utf16_round_trip(rest);
        let v = c as u32;
        utf8::char_is_scalar(c);
        utf8::char_u32_cast(c, v);
        if v < 0x10000 {
            assert(units.skip(1) =~= utf16(rest));
            assert(units[0] == v);
        } else {
            let k = v - 0x10000;
            assert(units.skip(2) =~= utf16(rest));
            assert(0 <= k / 0x400 < 0x400);
            assert(units[0] == 0xD800 + k / 0x400);
            assert(units[1] == 0xDC00 + k % 0x400);
            assert(0x10000 + (units[0] - 0xD800) * 0x400 + (units[1] - 0xDC00) == v);
            assert(pair_char(units[0], units[1]) == c);
        }
        assert(decoded_lossy(units) =~= seq![c] + rest);
        assert(seq![c] + rest =~= s);
    } else {
        assert(decoded_lossy(utf16(s)) =~= s);
    }
}

/// A character has one code unit that is no half of a pair, or two that are a
/// pair.
pub proof fn lemma_char_units(c: char)
    ensures
        char_units(c).len() == 1 ==> !is_high(char_units(c)[0]) && !is_low(char_units(c)[0]),
        char_units(c).len() == 2 ==> is_high(char_units(c)[0]) && is_low(char_units(c)[1]),
        char_units(c).len() == 1 || char_units(c).len() == 2,
{
    let v = c as u32;
    utf8::char_is_scalar(c);
    utf8::char_u32_cast(c, v);
    if v >= 0x10000 {
        let k = v - 0x10000;
        assert(0 <= k / 0x400 < 0x400);
    }
}

/// Characters with the same code units are the same.
pub proof fn lemma_char_units_differ(a: char, b: char)
    requires
        char_units(a) == char_units(b),
    ensures
        a == b,
{
    lemma_utf16_push(Seq::empty(), a);
    lemma_utf16_push(Seq::empty(), b);
    let (x, y) = (Seq::<char>::empty().push(a), Seq::<char>::empty().push(b));
    utf16_round_trip(x);
    utf16_round_trip(y);
    assert(x[0] == a && y[0] == b);
}

/// Appends the code units of one character.
pub fn push_units(units: &mut Vec<u16>, c: char)
    ensures
        final(units)@ == old(units)@ + char_units(c),
{
    let v: u32 = c as u32;
    if v < 0x10000 {
        units.push(v as u16);
    } else {
        units.push((0xD800 + (v - 0x10000) / 0x400) as u16);
        units.push((0xDC00 + (v - 0x10000) % 0x400) as u16);
    }
    proof {
        assert(units@ =~= old(units)@ + char_units(c));
    }
}

/// The UTF-16 code units of characters.
pub fn units_of_chars(chars: &[char]) -> (units: Vec<u16>)
    ensures
        units@ == utf16(chars@),
{
    let mut units: Vec<u16> = Vec::new();
    let mut i: usize = 0;
    proof {
        assert(chars@.take(0) =~= Seq::<char>::empty());
    }
    while i < chars.len()
        invariant
            i <= chars@.len(),
            units@ == utf16(chars@.take(i as int)),
        decreases chars@.len() - i,
    {
        push_units(&mut units, chars[i]);
        proof {
            lemma_utf16_push(chars@.take(i as int), chars@[i as int]);
            assert(chars@.take(i as int).push(chars@[i as int]) =~= chars@.take(i + 1));
        }
        i = i + 1;
    }
    proof {
        assert(chars@.take(i as int) =~= chars@);
    }
    units
}

/// The UTF-16 code units of a text.
pub fn units_of(s: &str) -> (units: Vec<u16>)
    ensures
        units@ == utf16(s@),
{
    let chars = chars_of(s);
    units_of_chars(&chars)
}

fn char_of_pair(high: u16, low: u16) -> (c: char)
    requires
        is_high(high),
        is_low(low),
    ensures
        c == pair_char(high, low),
{
    let v: u32 = 0x10000 + (high as u32 - 0xD800) * 0x400 + (low as u32 - 0xDC00);
    match char::from_u32(v) {
        Some(c) => c,
        None => REPLACEMENT,
    }
}

fn char_of_unit(u: u16) -> (c: char)
    requires
        !is_high(u),
        !is_low(u),
    ensures
        c == u as u32 as char,
{
    match char::from_u32(u as u32) {
        Some(c) => c,
        None => REPLACEMENT,
    }
}

/// The text of UTF-16 code units, with the replacement character for what is
/// no character.
pub fn text_of_units_lossy(units: &[u16]) -> (s: String)
    ensures
        s@ == decoded_lossy(units@),
{
    let mut s = String::new();
    let mut i: usize = 0;
    proof {
        assert(units@.skip(0) =~= units@);
        assert(Seq::<char>::empty() + decoded_lossy(units@) =~= decoded_lossy(units@));
    }
    while i < units.len()
        invariant
            i <= units@.len(),
            s@ + decoded_lossy(units@.skip(i as int)) == decoded_lossy(units@),
        decreases units@.len() - i,
    {
        let u: u16 = units[i];
        let ghost rest = units@.skip(i as int);
        let ghost before = s@;
        proof {
            assert(rest[0] == u);
            assert(rest.skip(1) =~= units@.skip(i + 1));
            if rest.len() >= 2 {
                assert(rest[1] == units@[i + 1]);
                assert(rest.skip(2) =~= units@.skip(i + 2));
            }
        }
        let high: bool = 0xD800 <= u && u < 0xDC00;
        let low: bool = 0xDC00 <= u && u < 0xE000;
        if high && i + 1 < units.len() && 0xDC00 <= units[i + 1] && units[i + 1] < 0xE000 {
            let c = char_of_pair(u, units[i + 1]);
            s.push(c);
            i = i + 2;
            proof {
                assert(before.push(c) + decoded_lossy(units@.skip(i as int)) =~= before + (seq![c]
                    + decoded_lossy(rest.skip(2))));
            }
        } else {
            let c = if high || low { REPLACEMENT } else { char_of_unit(u) };
            s.push(c);
            i = i + 1;
            proof {
                assert(before.push(c) + decoded_lossy(units@.skip(i as int)) =~= before + (seq![c]
                    + decoded_lossy(rest.skip(1))));
            }
        }
    }
    proof {
        assert(units@.skip(i as int) =~= Seq::<u16>::empty());
        assert(s@ + Seq::<char>::empty() =~= s@);
    }
    s
}

/// Whether UTF-16 code units are well formed.
pub fn check_utf16(units: &[u16]) -> (r: bool)
    ensures
        r == valid_utf16(units@),
{
    let mut i: usize = 0;
    proof {
        assert(units@.skip(0) =~= units@);
    }
    while i < units.len()
        invariant
            i <= units@.len(),
            valid_utf16(units@.skip(i as int)) == valid_utf16(units@),
        decreases units@.len() - i,
    {
        let u: u16 = units[i];
        proof {
            let rest = units@.skip(i as int);
            assert(rest[0] == u);
            assert(rest.skip(1) =~= units@.skip(i + 1));
            if rest.len() >= 2 {
                assert(rest[1] == units@[i + 1]);
                assert(rest.skip(2) =~= units@.skip(i + 2));
            }
        }
        if 0xD800 <= u && u < 0xDC00 {
            if i + 1 < units.len() && 0xDC00 <= units[i + 1] && units[i + 1] < 0xE000 {
                i = i + 2;
            } else {
                return false;
            }
        } else if 0xDC00 <= u && u < 0xE000 {
            return false;
        } else {
            i = i + 1;
        }
    }
    proof {
        assert(units@.skip(i as int) =~= Seq::<u16>::empty());
    }
    true
}

/// The text of UTF-16 code units, or `None` where half a pair stands alone.
pub fn text_of_units(units: &[u16]) -> (r: Option<String>)
    ensures
        r is Some <==> valid_utf16(units@),
        r matches Some(s) ==> s@ == decoded_lossy(units@),
{
    if check_utf16(units) {
        Some(text_of_units_lossy(units))
    } else {
        None
    }
}

/// Only the letters from A to Z change their size, each to the letter in the same place.
pub proof fn letters_keep_their_place(s: Seq<char>, i: int)
    requires
        0 <= i < s.len(),
    ensures
        lower(s).len() == s.len(),
        upper(s).len() == s.len(),
        'A' <= s[i] <= 'Z' ==> lower(s)[i] as u32 - 'a' as u32 == s[i] as u32 - 'A' as u32,
        'a' <= s[i] <= 'z' ==> upper(s)[i] as u32 - 'A' as u32 == s[i] as u32 - 'a' as u32,
        !('A' <= s[i] <= 'Z') ==> lower(s)[i] == s[i],
        !('a' <= s[i] <= 'z') ==> upper(s)[i] == s[i],
{
}

} // verus!
