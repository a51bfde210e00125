//! String operations as scripts see them.
//!
//! Scripts index strings by UTF-16 code units and lay text out in half-width
//! columns, so neither byte offsets nor character counts will do.

use vstd::prelude::*;
use vstd::utf8;
use crate::text;
use crate::text::{chars_of, lower_chars, text_of, text_of_units_lossy, to_upper_char, units_of};

verus! {

pub fn ascii_lower(s: &str) -> (r: String)
    ensures
        r@ == text::lower(s@),
{
    let chars = lower_chars(s);
    text_of(&chars)
}

pub fn ascii_upper(s: &str) -> (r: String)
    ensures
        r@ == text::upper(s@),
{
    let chars = chars_of(s);
    let mut r = String::new();
    let mut i: usize = 0;
    while i < chars.len()
        invariant
            chars@ == s@,
            i <= chars@.len(),
            r@ == text::upper(s@).take(i as int),
        decreases chars@.len() - i,
    {
        r.push(to_upper_char(chars[i]));
        i = i + 1;
        proof {
            assert(r@ =~= text::upper(s@).take(i as int));
        }
    }
    proof {
        assert(r@ =~= text::upper(s@));
    }
    r
}

pub fn utf16_len(s: &str) -> (n: usize)
    ensures
        n == text::utf16(s@).len(),
{
    units_of(s).len()
}

/// The code units `start..end` that a slice of `len` units from `start` keeps.
pub open spec fn unit_range(total: int, start: int, len: Option<usize>) -> (int, int) {
    let from = if start < total { start } else { total };
    let to = match len {
        Some(n) => if from + n < total { from + n } else { total },
        None => total,
    };
    (from, to)
}

pub fn utf16_slice(s: &str, start: usize, len: Option<usize>) -> (r: String)
    ensures
        ({
            let units = text::utf16(s@);
            let range = unit_range(units.len() as int, start as int, len);
            r@ == text::decoded_lossy(units.subrange(range.0, range.1))
        }),
{
    let units = units_of(s);
    let from: usize = if start < units.len() { start } else { units.len() };
    let to: usize = match len {
        Some(n) => if n < units.len() - from { from + n } else { units.len() },
        None => units.len(),
    };
    text_of_units_lossy(vstd::slice::slice_subrange(units.as_slice(), from, to))
}

pub fn utf16_left(s: &str, len: usize) -> (r: String)
    ensures
        ({
            let units = text::utf16(s@);
            let n = if len < units.len() { len as int } else { units.len() as int };
            r@ == text::decoded_lossy(units.take(n))
        }),
{
    utf16_slice(s, 0, Some(len))
}

pub fn utf16_right(s: &str, len: usize) -> (r: String)
    ensures
        ({
            let units = text::utf16(s@);
            let n = if len < units.len() { len as int } else { units.len() as int };
            r@ == text::decoded_lossy(units.skip(units.len() - n))
        }),
{
    let total: usize = utf16_len(s);
    utf16_slice(s, total.saturating_sub(len), None)
}

pub fn utf16_code_unit(s: &str, index: usize) -> (r: Option<u16>)
    ensures
        r == (if index < text::utf16(s@).len() {
            Some(text::utf16(s@)[index as int])
        } else {
            None
        }),
{
    let units = units_of(s);
    if index < units.len() {
        Some(units[index])
    } else {
        None
    }
}

/// Whether `needle` stands in `hay` from character `at` on.
pub open spec fn stands_at(hay: Seq<char>, needle: Seq<char>, at: int) -> bool {
    0 <= at && at + needle.len() <= hay.len() && hay.subrange(at, at + needle.len()) == needle
}

/// The first character at or after `from` where `needle` stands in `hay`.
pub open spec fn first_from(hay: Seq<char>, needle: Seq<char>, from: int) -> Option<int>
    decreases hay.len() - from + 1,
{
    if from < 0 || from + needle.len() > hay.len() {
        None
    } else if stands_at(hay, needle, from) {
        Some(from)
    } else {
        first_from(hay, needle, from + 1)
    }
}

/// The last character at or before `from` where `needle` stands in `hay`.
pub open spec fn last_from(hay: Seq<char>, needle: Seq<char>, from: int) -> Option<int>
    decreases from + 1,
{
    if from < 0 {
        None
    } else if stands_at(hay, needle, from) {
        Some(from)
    } else {
        last_from(hay, needle, from - 1)
    }
}

/// The code unit at which character `at` begins.
pub open spec fn unit_index(s: Seq<char>, at: Option<int>) -> Option<int> {
    match at {
        Some(k) => Some(text::utf16(s.take(k)).len() as int),
        None => None,
    }
}

/// What a search found is the first place of all: `needle` stands there and
/// nowhere before; and where it found nothing, `needle` stands nowhere.
pub proof fn first_place_is_first(hay: Seq<char>, needle: Seq<char>, from: int)
    requires
        0 <= from,
    ensures
        match first_from(hay, needle, from) {
            Some(k) => from <= k && stands_at(hay, needle, k) && forall|j: int|
                from <= j < k ==> !stands_at(hay, needle, j),
            None => forall|j: int| from <= j ==> !stands_at(hay, needle, j),
        },
    decreases hay.len() - from + 1,
{
    if from + needle.len() <= hay.len() && !stands_at(hay, needle, from) {
        first_place_is_first(hay, needle, from + 1);
    }
}

/// The same of the last place, among those at or before `from`.
pub proof fn last_place_is_last(hay: Seq<char>, needle: Seq<char>, from: int)
    ensures
        match last_from(hay, needle, from) {
            Some(k) => k <= from && stands_at(hay, needle, k) && forall|j: int|
                k < j <= from ==> !stands_at(hay, needle, j),
            None => forall|j: int| j <= from ==> !stands_at(hay, needle, j),
        },
    decreases from + 1,
{
    if from >= 0 && !stands_at(hay, needle, from) {
        last_place_is_last(hay, needle, from - 1);
    }
}

/// Whether code units stand in others from the unit `at` on.
pub open spec fn units_stand_at(hay: Seq<u16>, needle: Seq<u16>, at: int) -> bool {
    0 <= at && at + needle.len() <= hay.len() && hay.subrange(at, at + needle.len()) == needle
}

/// A text whose code units begin another's begins it.
proof fn lemma_units_prefix(hay: Seq<char>, needle: Seq<char>)
    requires
        units_stand_at(text::utf16(hay), text::utf16(needle), 0),
    ensures
        stands_at(hay, needle, 0),
    decreases needle.len(),
{
    let (h, n) = (text::utf16(hay), text::utf16(needle));
    if needle.len() == 0 {
        assert(hay.subrange(0, 0) =~= needle);
    } else {
        text::lemma_char_units(needle[0]);
        let first = text::char_units(needle[0]);
        assert(n[0] == first[0]);
        assert(h.subrange(0, n.len() as int)[0] == h[0]);
        assert(hay.len() > 0);
        text::lemma_char_units(hay[0]);
        let own = text::char_units(hay[0]);
        assert(h[0] == own[0]);
        if first.len() == 2 {
            assert(n[1] == first[1]);
            assert(h.subrange(0, n.len() as int)[1] == h[1]);
            assert(own.len() == 2);
            assert(h[1] == own[1]);
        }
        assert(own =~= first);
        text::lemma_char_units_differ(hay[0], needle[0]);
        let (hay2, needle2) = (hay.drop_first(), needle.drop_first());
        let (h2, n2) = (text::utf16(hay2), text::utf16(needle2));
        assert(h2.subrange(0, n2.len() as int) =~= n2) by {
            assert forall|i: int| 0 <= i < n2.len() implies h2[i] == n2[i] by {
                assert(h[i + own.len()] == h2[i]);
                assert(n[i + own.len()] == n2[i]);
                assert(h.subrange(0, n.len() as int)[i + own.len()] == h[i + own.len()]);
            }
        }
        lemma_units_prefix(hay2, needle2);
        assert(hay.subrange(0, needle.len() as int) =~= needle) by {
            assert forall|i: int| 0 <= i < needle.len() implies hay[i] == needle[i] by {
                if i > 0 {
                    assert(hay2.subrange(0, needle2.len() as int)[i - 1] == hay2[i - 1]);
                    assert(hay[i] == hay2[i - 1]);
                    assert(needle[i] == needle2[i - 1]);
                }
            }
        }
    }
}

/// Where the code units of a text stand in another's, a character begins and
/// the text stands from there on.
proof fn lemma_units_place(hay: Seq<char>, needle: Seq<char>, at: int) -> (k: int)
    requires
        needle.len() > 0,
        units_stand_at(text::utf16(hay), text::utf16(needle), at),
    ensures
        stands_at(hay, needle, k),
        text::utf16(hay.take(k)).len() == at,
    decreases hay.len(),
{
    let (h, n) = (text::utf16(hay), text::utf16(needle));
    text::lemma_char_units(needle[0]);
    assert(n[0] == text::char_units(needle[0])[0]);
    assert(h.subrange(at, at + n.len())[0] == h[at]);
    assert(hay.len() > 0);
    if at == 0 {
        lemma_units_prefix(hay, needle);
        assert(hay.take(0) =~= Seq::<char>::empty());
        0
    } else {
        text::lemma_char_units(hay[0]);
        let own = text::char_units(hay[0]);
        if at < own.len() {
            assert(h[1] == own[1]);
        }
        let rest = hay.drop_first();
        let h2 = text::utf16(rest);
        let at2 = at - own.len();
        assert(h2.subrange(at2, at2 + n.len()) =~= n) by {
            assert forall|i: int| 0 <= i < n.len() implies h2[at2 + i] == n[i] by {
                assert(h[at + i] == h2[at2 + i]);
                assert(h.subrange(at, at + n.len())[i] == h[at + i]);
            }
        }
        let k = lemma_units_place(rest, needle, at2);
        assert(hay.take(k + 1)[0] == hay[0]);
        assert(hay.take(k + 1).drop_first() =~= rest.take(k));
        assert(hay.subrange(k + 1, k + 1 + needle.len()) =~= rest.subrange(k, k + needle.len()));
        k + 1
    }
}

/// Where a text stands in another, its code units stand.
proof fn lemma_place_units(hay: Seq<char>, needle: Seq<char>, k: int)
    requires
        stands_at(hay, needle, k),
    ensures
        units_stand_at(
            text::utf16(hay),
            text::utf16(needle),
            text::utf16(hay.take(k)).len() as int,
        ),
{
    let front = hay.take(k);
    let back = hay.skip(k + needle.len());
    assert(hay =~= front + (needle + back));
    text::lemma_utf16_concat(front, needle + back);
    text::lemma_utf16_concat(needle, back);
    let at = text::utf16(front).len() as int;
    let n = text::utf16(needle);
    assert(text::utf16(hay).subrange(at, at + n.len()) =~= n);
}

/// Every character has a code unit.
proof fn lemma_units_grow(s: Seq<char>, a: int, b: int)
    requires
        0 <= a < b <= s.len(),
    ensures
        text::utf16(s.take(a)).len() < text::utf16(s.take(b)).len(),
{
    let mid = s.subrange(a, b);
    assert(s.take(b) =~= s.take(a) + mid);
    text::lemma_utf16_concat(s.take(a), mid);
    text::lemma_char_units(mid[0]);
}

/// The places that the two searches answer are the least and the greatest
/// places among the UTF-16 code units at which those of `needle` stand.
pub proof fn searches_are_over_code_units(hay: Seq<char>, needle: Seq<char>)
    ensures
        match unit_index(hay, first_from(hay, needle, 0)) {
            Some(p) => units_stand_at(text::utf16(hay), text::utf16(needle), p) && forall|q: int|
                q < p ==> !units_stand_at(text::utf16(hay), text::utf16(needle), q),
            None => forall|q: int| !units_stand_at(text::utf16(hay), text::utf16(needle), q),
        },
        match unit_index(hay, last_from(hay, needle, hay.len() as int)) {
            Some(p) => units_stand_at(text::utf16(hay), text::utf16(needle), p) && forall|q: int|
                q > p ==> !units_stand_at(text::utf16(hay), text::utf16(needle), q),
            None => forall|q: int| !units_stand_at(text::utf16(hay), text::utf16(needle), q),
        },
        needle.len() == 0 ==> unit_index(hay, first_from(hay, needle, 0)) == Some(0int)
            && unit_index(hay, last_from(hay, needle, hay.len() as int)) == Some(
            text::utf16(hay).len() as int,
        ),
{
    let (h, n) = (text::utf16(hay), text::utf16(needle));
    let first = first_from(hay, needle, 0);
    let last = last_from(hay, needle, hay.len() as int);
    first_place_is_first(hay, needle, 0);
    last_place_is_last(hay, needle, hay.len() as int);
    if needle.len() == 0 {
        assert(hay.subrange(0, 0) =~= needle);
        assert(hay.subrange(hay.len() as int, hay.len() as int) =~= needle);
        assert(first == Some(0int));
        assert(last == Some(hay.len() as int));
        assert(hay.take(0) =~= Seq::<char>::empty());
        assert(hay.take(hay.len() as int) =~= hay);
    } else {
        assert forall|q: int| units_stand_at(h, n, q) implies ({
            &&& unit_index(hay, first) matches Some(p) && p <= q
            &&& unit_index(hay, last) matches Some(p) && q <= p
        }) by {
            let k = lemma_units_place(hay, needle, q);
            if first->0 < k {
                lemma_units_grow(hay, first->0, k);
            }
            if k < last->0 {
                lemma_units_grow(hay, k, last->0);
            }
        }
    }
    if first is Some {
        lemma_place_units(hay, needle, first->0);
    }
    if last is Some {
        lemma_place_units(hay, needle, last->0);
    }
}

fn check_stands_at(hay: &[char], needle: &[char], at: usize) -> (r: bool)
    requires
        at + needle@.len() <= hay@.len(),
    ensures
        r == stands_at(hay@, needle@, at as int),
{
    let total: usize = hay.len();
    let mut i: usize = 0;
    while i < needle.len()
        invariant
            total == hay@.len(),
            at + needle@.len() <= hay@.len(),
            i <= needle@.len(),
            forall|k: int| 0 <= k < i ==> hay@[at + k] == needle@[k],
        decreases needle@.len() - i,
    {
        if hay[at + i] != needle[i] {
            proof {
                assert(hay@.subrange(at as int, at + needle@.len())[i as int] == hay@[at + i]);
            }
            return false;
        }
        i = i + 1;
    }
    proof {
        assert(hay@.subrange(at as int, at + needle@.len()) =~= needle@);
    }
    true
}

fn units_before(chars: &[char], at: usize) -> (n: usize)
    requires
        at <= chars@.len(),
    ensures
        n == text::utf16(chars@.take(at as int)).len(),
{
    let head = vstd::slice::slice_subrange(chars, 0, at);
    proof {
        assert(head@ =~= chars@.take(at as int));
    }
    text::units_of_chars(head).len()
}

pub fn search_ascii_case_insensitive(haystack: &str, needle: &str) -> (r: Option<usize>)
    ensures
        ({
            let hay = text::lower(haystack@);
            let place = unit_index(hay, first_from(hay, text::lower(needle@), 0));
            match r {
                Some(n) => place == Some(n as int),
                None => place is None,
            }
        }),
{
    let hay = lower_chars(haystack);
    let wanted = lower_chars(needle);
    if wanted.len() > hay.len() {
        return None;
    }
    let last: usize = hay.len() - wanted.len();
    let mut at: usize = 0;
    loop
        invariant
            last + wanted@.len() == hay@.len(),
            at <= last,
            first_from(hay@, wanted@, at as int) == first_from(hay@, wanted@, 0),
            hay@ == text::lower(haystack@),
            wanted@ == text::lower(needle@),
        decreases last - at,
    {
        if check_stands_at(&hay, &wanted, at) {
            return Some(units_before(&hay, at));
        }
        if at == last {
            proof {
                assert(first_from(hay@, wanted@, at + 1) is None);
            }
            return None;
        }
        at = at + 1;
    }
}

pub fn rsearch_ascii_case_insensitive(haystack: &str, needle: &str) -> (r: Option<usize>)
    ensures
        ({
            let hay = text::lower(haystack@);
            let place = unit_index(hay, last_from(hay, text::lower(needle@), hay.len() as int));
            match r {
                Some(n) => place == Some(n as int),
                None => place is None,
            }
        }),
{
    let hay = lower_chars(haystack);
    let wanted = lower_chars(needle);
    proof {
        lemma_last_from_high(
            hay@,
            wanted@,
            hay@.len() as int,
            (hay@.len() - wanted@.len()) as int,
        );
    }
    if wanted.len() > hay.len() {
        return None;
    }
    let mut at: usize = hay.len() - wanted.len();
    loop
        invariant
            at + wanted@.len() <= hay@.len(),
            last_from(hay@, wanted@, at as int) == last_from(hay@, wanted@, hay@.len() as int),
            hay@ == text::lower(haystack@),
            wanted@ == text::lower(needle@),
        decreases at,
    {
        if check_stands_at(&hay, &wanted, at) {
            return Some(units_before(&hay, at));
        }
        if at == 0 {
            proof {
                assert(last_from(hay@, wanted@, -1) is None);
            }
            return None;
        }
        at = at - 1;
    }
}

/// Nothing is found behind the last place where `needle` could stand.
proof fn lemma_last_from_high(hay: Seq<char>, needle: Seq<char>, from: int, last: int)
    requires
        last == hay.len() - needle.len(),
        from >= last,
    ensures
        last_from(hay, needle, from) == last_from(hay, needle, last),
    decreases from - last,
{
    if from > last && from >= 0 {
        lemma_last_from_high(hay, needle, from - 1, last);
    }
}

/// Whether a character takes a single column: ASCII, the yen sign, the
/// overline and half-width katakana.
pub open spec fn hankaku(ch: char) -> bool {
    let v = ch as u32;
    v < 0x80 || v == 0xA5 || v == 0x203E || 0xFF61 <= v <= 0xFF9F
}

pub fn is_hankaku(ch: char) -> (r: bool)
    ensures
        r == hankaku(ch),
{
    let v: u32 = ch as u32;
    v < 0x80 || v == 0xA5 || v == 0x203E || (0xFF61 <= v && v <= 0xFF9F)
}

/// Columns of one character.
pub open spec fn char_width(ch: char) -> int {
    if hankaku(ch) {
        1
    } else {
        2
    }
}

/// Columns of a text.
pub open spec fn width(s: Seq<char>) -> int
    decreases s.len(),
{
    if s.len() == 0 {
        0
    } else {
        width(s.drop_last()) + char_width(s.last())
    }
}

/// How many characters from the front fit into `limit` columns.
pub open spec fn fitting(s: Seq<char>, limit: int) -> int
    decreases s.len(),
{
    if s.len() == 0 || char_width(s[0]) > limit {
        0
    } else {
        1 + fitting(s.drop_first(), limit - char_width(s[0]))
    }
}

/// How many characters from the front begin before column `start`.
pub open spec fn skipping(s: Seq<char>, start: int) -> int
    decreases s.len(),
{
    if s.len() == 0 || start <= 0 {
        0
    } else {
        1 + skipping(s.drop_first(), start - char_width(s[0]))
    }
}

pub fn display_width_char(ch: char) -> (w: usize)
    ensures
        w == char_width(ch),
{
    if is_hankaku(ch) {
        1
    } else {
        2
    }
}

proof fn lemma_width_front(s: Seq<char>)
    requires
        s.len() > 0,
    ensures
        width(s) == char_width(s[0]) + width(s.drop_first()),
    decreases s.len(),
{
    if s.len() > 1 {
        lemma_width_front(s.drop_last());
        assert(s.drop_last().drop_first() =~= s.drop_first().drop_last());
        assert(s.drop_first().last() == s.last());
    } else {
        assert(s.drop_last() =~= Seq::<char>::empty());
        assert(s.drop_first() =~= Seq::<char>::empty());
    }
}

proof fn lemma_width_concat(a: Seq<char>, b: Seq<char>)
    ensures
        width(a + b) == width(a) + width(b),
    decreases b.len(),
{
    if b.len() == 0 {
        assert(a + b =~= a);
    } else {
        assert((a + b).drop_last() =~= a + b.drop_last());
        lemma_width_concat(a, b.drop_last());
    }
}

proof fn lemma_width_bounds(s: Seq<char>)
    ensures
        s.len() <= width(s) <= utf8::encode_utf8(s).len(),
    decreases s.len(),
{
    if s.len() > 0 {
        lemma_width_front(s);
        lemma_width_bounds(s.drop_first());
        let v = s[0] as u32;
        assert(utf8::encode_scalar(v).len() >= char_width(s[0]));
    }
}

/// The kept characters fit, and one more would not.
pub proof fn fitting_is_greatest(s: Seq<char>, limit: int)
    requires
        0 <= limit,
    ensures
        0 <= fitting(s, limit) <= s.len(),
        width(s.take(fitting(s, limit))) <= limit,
        fitting(s, limit) < s.len() ==> width(s.take(fitting(s, limit) + 1)) > limit,
    decreases s.len(),
{
    let n = fitting(s, limit);
    if s.len() == 0 {
        assert(s.take(0) =~= Seq::<char>::empty());
    } else if char_width(s[0]) > limit {
        assert(s.take(0) =~= Seq::<char>::empty());
        assert(s.take(1).drop_first() =~= Seq::<char>::empty());
        lemma_width_front(s.take(1));
    } else {
        let rest = s.drop_first();
        fitting_is_greatest(rest, limit - char_width(s[0]));
        assert(s.take(n).drop_first() =~= rest.take(n - 1));
        lemma_width_front(s.take(n));
        if n < s.len() {
            assert(s.take(n + 1).drop_first() =~= rest.take(n));
            lemma_width_front(s.take(n + 1));
        }
    }
}

/// The skipped characters are exactly those that begin before the column.
pub proof fn skipping_is_exact(s: Seq<char>, start: int, k: int)
    requires
        0 <= k < s.len(),
    ensures
        0 <= skipping(s, start) <= s.len(),
        k < skipping(s, start) <==> width(s.take(k)) < start,
    decreases s.len(),
{
    if start <= 0 {
        lemma_width_bounds(s.take(k));
    } else {
        let rest = s.drop_first();
        let w = char_width(s[0]);
        if k == 0 {
            assert(s.take(0) =~= Seq::<char>::empty());
            lemma_skipping_range(rest, start - w);
        } else {
            skipping_is_exact(rest, start - w, k - 1);
            assert(s.take(k).drop_first() =~= rest.take(k - 1));
            lemma_width_front(s.take(k));
        }
    }
}

proof fn lemma_skipping_range(s: Seq<char>, start: int)
    ensures
        0 <= skipping(s, start) <= s.len(),
    decreases s.len(),
{
    if s.len() > 0 && start > 0 {
        lemma_skipping_range(s.drop_first(), start - char_width(s[0]));
    }
}

proof fn lemma_fitting_range(s: Seq<char>, limit: int)
    ensures
        0 <= fitting(s, limit) <= s.len(),
    decreases s.len(),
{
    if s.len() > 0 && char_width(s[0]) <= limit {
        lemma_fitting_range(s.drop_first(), limit - char_width(s[0]));
    }
}

/// A text whose columns can be counted in a machine word, as every text can.
fn bounded_chars(s: &str) -> (chars: Vec<char>)
    ensures
        chars@ == s@,
        width(s@) <= usize::MAX,
        forall|k: int| 0 <= k <= s@.len() ==> #[trigger] width(s@.take(k)) <= width(s@),
{
    let bytes = s.as_bytes();
    let n: usize = bytes.len();
    proof {
        lemma_width_bounds(s@);
        assert(n == utf8::encode_utf8(s@).len());
        assert forall|k: int| 0 <= k <= s@.len() implies #[trigger] width(s@.take(k)) <= width(
            s@,
        ) by {
            assert(s@ =~= s@.take(k) + s@.skip(k));
            lemma_width_concat(s@.take(k), s@.skip(k));
            lemma_width_bounds(s@.skip(k));
        }
    }
    chars_of(s)
}

pub fn display_width(s: &str) -> (n: usize)
    ensures
        n == width(s@),
{
    let chars = bounded_chars(s);
    let mut total: usize = 0;
    let mut i: usize = 0;
    proof {
        assert(s@.take(0) =~= Seq::<char>::empty());
    }
    while i < chars.len()
        invariant
            chars@ == s@,
            width(s@) <= usize::MAX,
            forall|k: int| 0 <= k <= s@.len() ==> #[trigger] width(s@.take(k)) <= width(s@),
            i <= chars@.len(),
            total == width(s@.take(i as int)),
        decreases chars@.len() - i,
    {
        proof {
            assert(s@.take(i + 1).drop_last() =~= s@.take(i as int));
            assert(width(s@.take(i + 1)) <= width(s@));
        }
        total = total + display_width_char(chars[i]);
        i = i + 1;
    }
    proof {
        assert(s@.take(i as int) =~= s@);
    }
    total
}

/// How many characters from `from` on fit into `limit` columns.
fn count_fitting(chars: &[char], from: usize, limit: usize) -> (n: usize)
    requires
        from <= chars@.len(),
    ensures
        n == fitting(chars@.skip(from as int), limit as int),
        from + n <= chars@.len(),
{
    let mut left: usize = limit;
    let mut i: usize = from;
    while i < chars.len()
        invariant
            from <= i <= chars@.len(),
            left <= limit,
            fitting(chars@.skip(from as int), limit as int) == (i - from) + fitting(
                chars@.skip(i as int),
                left as int,
            ),
        decreases chars@.len() - i,
    {
        let w: usize = display_width_char(chars[i]);
        proof {
            assert(chars@.skip(i as int)[0] == chars@[i as int]);
            assert(chars@.skip(i as int).drop_first() =~= chars@.skip(i + 1));
        }
        if w > left {
            return i - from;
        }
        left = left - w;
        i = i + 1;
    }
    i - from
}

pub fn left_by_display_width(s: &str, limit: usize) -> (r: String)
    ensures
        r@ == s@.take(fitting(s@, limit as int)),
{
    let chars = chars_of(s);
    proof {
        assert(chars@.skip(0) =~= s@);
    }
    let n: usize = count_fitting(&chars, 0, limit);
    let head = vstd::slice::slice_subrange(chars.as_slice(), 0, n);
    proof {
        assert(head@ =~= s@.take(n as int));
    }
    text_of(head)
}

/// The longest end of the text that fits into `limit` columns.
pub fn right_by_display_width(s: &str, limit: usize) -> (r: String)
    ensures
        r@ == s@.skip(s@.len() - fitting(s@.reverse(), limit as int)),
{
    let chars = chars_of(s);
    let mut left: usize = limit;
    let mut i: usize = chars.len();
    proof {
        assert(s@.take(i as int) =~= s@);
        lemma_fitting_range(s@.reverse(), limit as int);
    }
    while i > 0
        invariant
            chars@ == s@,
            i <= chars@.len(),
            left <= limit,
            0 <= fitting(s@.reverse(), limit as int) <= s@.len(),
            fitting(s@.reverse(), limit as int) == (chars@.len() - i) + fitting(
                s@.take(i as int).reverse(),
                left as int,
            ),
        ensures
            fitting(s@.take(i as int).reverse(), left as int) == 0,
        decreases i,
    {
        let w: usize = display_width_char(chars[i - 1]);
        proof {
            let front = s@.take(i as int).reverse();
            assert(front[0] == s@[i - 1]);
            assert(front.drop_first() =~= s@.take(i - 1).reverse());
        }
        if w > left {
            break;
        }
        left = left - w;
        i = i - 1;
    }
    let tail = vstd::slice::slice_subrange(chars.as_slice(), i, chars.len());
    proof {
        assert(tail@ =~= s@.skip(i as int));
    }
    text_of(tail)
}

/// The characters that begin at or after column `start_width` and end within
/// `len_width` columns of it.
pub open spec fn middle(s: Seq<char>, start_width: int, len_width: Option<usize>) -> Seq<char> {
    let k = skipping(s, start_width);
    let rest = s.skip(k);
    match len_width {
        None => rest,
        Some(len) => rest.take(fitting(rest, start_width + len - width(s.take(k)))),
    }
}

pub fn mid_by_display_width(s: &str, start_width: usize, len_width: Option<usize>) -> (r: String)
    ensures
        r@ == middle(s@, start_width as int, len_width),
{
    let chars = bounded_chars(s);
    let mut column: usize = 0;
    let mut i: usize = 0;
    proof {
        assert(s@.take(0) =~= Seq::<char>::empty());
        assert(s@.skip(0) =~= s@);
        lemma_skipping_range(s@, start_width as int);
    }
    while i < chars.len() && column < start_width
        invariant
            chars@ == s@,
            width(s@) <= usize::MAX,
            forall|k: int| 0 <= k <= s@.len() ==> #[trigger] width(s@.take(k)) <= width(s@),
            i <= chars@.len(),
            column == width(s@.take(i as int)),
            skipping(s@, start_width as int) == i + skipping(
                s@.skip(i as int),
                start_width - column,
            ),
        decreases chars@.len() - i,
    {
        proof {
            assert(s@.take(i + 1).drop_last() =~= s@.take(i as int));
            assert(width(s@.take(i + 1)) <= width(s@));
            assert(s@.skip(i as int)[0] == s@[i as int]);
            assert(s@.skip(i as int).drop_first() =~= s@.skip(i + 1));
        }
        column = column + display_width_char(chars[i]);
        i = i + 1;
    }
    proof {
        assert(skipping(s@.skip(i as int), start_width - column) == 0);
        lemma_fitting_range(s@.skip(i as int), usize::MAX as int);
    }
    let n: usize = match len_width {
        None => chars.len() - i,
        Some(len) => {
            let end: usize = start_width.saturating_add(len);
            if end >= column {
                proof {
                    assert(s@ =~= s@.take(i as int) + s@.skip(i as int));
                    lemma_width_concat(s@.take(i as int), s@.skip(i as int));
                    if start_width + len > usize::MAX {
                        lemma_fitting_all(s@.skip(i as int), end - column);
                        lemma_fitting_all(s@.skip(i as int), start_width + len - column);
                    }
                }
                count_fitting(&chars, i, end - column)
            } else {
                0
            }
        },
    };
    let part = vstd::slice::slice_subrange(chars.as_slice(), i, i + n);
    proof {
        let rest = s@.skip(i as int);
        assert(part@ =~= rest.take(n as int));
        assert(rest.take(rest.len() as int) =~= rest);
    }
    text_of(part)
}

/// A text that is not wider than the limit fits whole.
proof fn lemma_fitting_all(s: Seq<char>, limit: int)
    requires
        width(s) <= limit,
    ensures
        fitting(s, limit) == s.len(),
    decreases s.len(),
{
    if s.len() > 0 {
        lemma_width_front(s);
        lemma_width_bounds(s.drop_first());
        lemma_fitting_all(s.drop_first(), limit - char_width(s[0]));
    }
}

/// Plain letters, the yen sign, the overline and the small kana take one column each. Every
/// other character takes two.
pub proof fn small_characters_take_one_column(ch: char)
    ensures
        '\0' <= ch <= '\x7F' || ch == '\u{A5}' || ch == '\u{203E}' || '\u{FF61}' <= ch
            <= '\u{FF9F}' ==> width(seq![ch]) == 1,
        !('\0' <= ch <= '\x7F' || ch == '\u{A5}' || ch == '\u{203E}' || '\u{FF61}' <= ch
            <= '\u{FF9F}') ==> width(seq![ch]) == 2,
{
    reveal_with_fuel(width, 2);
    assert(seq![ch].drop_last() =~= Seq::<char>::empty());
}

} // verus!
