//! Parts of texts: trimming, searching and joining.

use vstd::prelude::*;
use vstd::slice::slice_subrange;
use crate::text::{chars_of, text_of, to_lower_char};
use crate::text;

verus! {

/// The characters with the Unicode property `White_Space`.
pub open spec fn is_space(c: char) -> bool {
    ||| '\u{9}' <= c <= '\u{D}'
    ||| c == ' '
    ||| c == '\u{85}'
    ||| c == '\u{A0}'
    ||| c == '\u{1680}'
    ||| '\u{2000}' <= c <= '\u{200A}'
    ||| '\u{2028}' <= c <= '\u{2029}'
    ||| c == '\u{202F}'
    ||| c == '\u{205F}'
    ||| c == '\u{3000}'
}

pub fn space(c: char) -> (r: bool)
    ensures
        r == is_space(c),
{
    ('\u{9}' <= c && c <= '\u{D}') || c == ' ' || c == '\u{85}' || c == '\u{A0}' || c == '\u{1680}'
        || ('\u{2000}' <= c && c <= '\u{200A}') || ('\u{2028}' <= c && c <= '\u{2029}') || c
        == '\u{202F}' || c == '\u{205F}' || c == '\u{3000}'
}

/// `s` without the white space at its end.
pub open spec fn trimmed_end(s: Seq<char>) -> Seq<char>
    decreases s.len(),
{
    if s.len() > 0 && is_space(s.last()) {
        trimmed_end(s.drop_last())
    } else {
        s
    }
}

/// `s` without the white space at its start.
pub open spec fn trimmed_start(s: Seq<char>) -> Seq<char>
    decreases s.len(),
{
    if s.len() > 0 && is_space(s[0]) {
        trimmed_start(s.drop_first())
    } else {
        s
    }
}

/// `s` without the white space at both ends.
pub open spec fn trimmed(s: Seq<char>) -> Seq<char> {
    trimmed_end(trimmed_start(s))
}

/// The white space around `chars` is left out.
pub fn trim_chars(chars: &[char]) -> (r: &[char])
    ensures
        r@ == trimmed(chars@),
        r@.len() <= chars@.len(),
{
    let mut start: usize = 0;
    proof {
        assert(chars@.skip(0) =~= chars@);
    }
    while start < chars.len() && space(chars[start])
        invariant
            start <= chars@.len(),
            trimmed_start(chars@) == trimmed_start(chars@.skip(start as int)),
        decreases chars@.len() - start,
    {
        proof {
            assert(chars@.skip(start as int).drop_first() =~= chars@.skip(start + 1));
        }
        start = start + 1;
    }
    let mut end: usize = chars.len();
    proof {
        assert(chars@.skip(start as int) =~= chars@.subrange(start as int, end as int));
        assert(trimmed_start(chars@) == chars@.subrange(start as int, end as int));
    }
    while end > start && space(chars[end - 1])
        invariant
            start <= end <= chars@.len(),
            trimmed(chars@) == trimmed_end(chars@.subrange(start as int, end as int)),
        decreases end - start,
    {
        proof {
            assert(chars@.subrange(start as int, end as int).drop_last() =~= chars@.subrange(
                start as int,
                end - 1,
            ));
        }
        end = end - 1;
    }
    proof {
        assert(end > start ==> chars@.subrange(start as int, end as int).last() == chars@[end - 1]);
    }
    slice_subrange(chars, start, end)
}

pub fn trim(s: &str) -> (r: String)
    ensures
        r@ == trimmed(s@),
{
    let chars = chars_of(s);
    text_of(trim_chars(chars.as_slice()))
}

/// Whether `c` occurs in `s` at `i` and not before.
pub open spec fn first_at(s: Seq<char>, c: char, i: int) -> bool {
    &&& 0 <= i < s.len()
    &&& s[i] == c
    &&& forall|k: int| 0 <= k < i ==> s[k] != c
}

/// Whether `c` occurs in `s` at `i` and not behind.
pub open spec fn last_at(s: Seq<char>, c: char, i: int) -> bool {
    &&& 0 <= i < s.len()
    &&& s[i] == c
    &&& forall|k: int| i < k < s.len() ==> s[k] != c
}

/// The first place of `c`.
pub open spec fn first_of(s: Seq<char>, c: char) -> Option<int> {
    if s.contains(c) {
        Some(choose|i: int| first_at(s, c, i))
    } else {
        None
    }
}

/// The last place of `c`.
pub open spec fn last_of(s: Seq<char>, c: char) -> Option<int> {
    if s.contains(c) {
        Some(choose|i: int| last_at(s, c, i))
    } else {
        None
    }
}

pub proof fn lemma_first(s: Seq<char>, c: char, i: int)
    requires
        first_at(s, c, i),
    ensures
        first_of(s, c) == Some(i),
{
    let j = choose|j: int| first_at(s, c, j);
    assert(first_at(s, c, j));
    if j < i {
        assert(s[j] != c);
    } else if i < j {
        assert(s[i] != c);
    }
}

/// A character that occurs has a first place.
pub proof fn lemma_has_first(s: Seq<char>, c: char, k: int)
    requires
        0 <= k < s.len(),
        s[k] == c,
    ensures
        first_of(s, c) is Some,
        first_at(s, c, first_of(s, c)->0),
    decreases k,
{
    if forall|j: int| 0 <= j < k ==> s[j] != c {
        assert(first_at(s, c, k));
        lemma_first(s, c, k);
    } else {
        let j = choose|j: int| 0 <= j < k && s[j] == c;
        lemma_has_first(s, c, j);
    }
}

pub proof fn lemma_last(s: Seq<char>, c: char, i: int)
    requires
        last_at(s, c, i),
    ensures
        last_of(s, c) == Some(i),
{
    let j = choose|j: int| last_at(s, c, j);
    assert(last_at(s, c, j));
    if i < j {
        assert(s[j] != c);
    } else if j < i {
        assert(s[i] != c);
    }
}

/// The first place of `c`.
pub fn find_char(s: &[char], c: char) -> (r: Option<usize>)
    ensures
        match r {
            Some(i) => first_at(s@, c, i as int) && first_of(s@, c) == Some(i as int) && i
                < usize::MAX,
            None => !s@.contains(c) && first_of(s@, c) is None,
        },
{
    let mut i: usize = 0;
    while i < s.len()
        invariant
            i <= s@.len(),
            forall|k: int| 0 <= k < i ==> s@[k] != c,
        decreases s@.len() - i,
    {
        if s[i] == c {
            proof {
                lemma_first(s@, c, i as int);
            }
            return Some(i);
        }
        i = i + 1;
    }
    None
}

/// The last place of `c`.
pub fn find_last_char(s: &[char], c: char) -> (r: Option<usize>)
    ensures
        match r {
            Some(i) => last_at(s@, c, i as int) && last_of(s@, c) == Some(i as int) && i < usize::MAX,
            None => !s@.contains(c) && last_of(s@, c) is None,
        },
{
    let mut i: usize = s.len();
    while i > 0
        invariant
            i <= s@.len(),
            forall|k: int| i <= k < s@.len() ==> s@[k] != c,
        decreases i,
    {
        i = i - 1;
        if s[i] == c {
            proof {
                lemma_last(s@, c, i as int);
            }
            return Some(i);
        }
    }
    None
}

/// Whether `s` begins with `prefix`.
pub fn starts_with(s: &[char], prefix: &[char]) -> (r: bool)
    ensures
        r == prefix@.is_prefix_of(s@),
{
    if s.len() < prefix.len() {
        return false;
    }
    let mut i: usize = 0;
    while i < prefix.len()
        invariant
            i <= prefix@.len() <= s@.len(),
            forall|k: int| 0 <= k < i ==> s@[k] == prefix@[k],
        decreases prefix@.len() - i,
    {
        if s[i] != prefix[i] {
            proof {
                assert(prefix@[i as int] != s@.subrange(0, prefix@.len() as int)[i as int]);
            }
            return false;
        }
        i = i + 1;
    }
    proof {
        assert(prefix@ =~= s@.subrange(0, prefix@.len() as int));
    }
    true
}

/// Whether `s` ends with `suffix`.
pub fn ends_with(s: &[char], suffix: &[char]) -> (r: bool)
    ensures
        r == suffix@.is_suffix_of(s@),
{
    if s.len() < suffix.len() {
        return false;
    }
    let base: usize = s.len() - suffix.len();
    let mut i: usize = 0;
    while i < suffix.len()
        invariant
            base == s@.len() - suffix@.len(),
            s@.len() <= usize::MAX,
            i <= suffix@.len() <= s@.len(),
            forall|k: int| 0 <= k < i ==> s@[base + k] == #[trigger] suffix@[k],
        decreases suffix@.len() - i,
    {
        if s[base + i] != suffix[i] {
            proof {
                assert(suffix@[i as int] != s@.subrange(base as int, s@.len() as int)[i as int]);
            }
            return false;
        }
        i = i + 1;
    }
    proof {
        assert(suffix@ =~= s@.subrange(base as int, s@.len() as int));
    }
    true
}

/// Whether two character lists are the same.
pub fn same_chars(a: &[char], b: &[char]) -> (r: bool)
    ensures
        r == (a@ == b@),
{
    if a.len() != b.len() {
        return false;
    }
    let mut i: usize = 0;
    while i < a.len()
        invariant
            i <= a@.len(),
            a@.len() == b@.len(),
            forall|k: int| 0 <= k < i ==> a@[k] == b@[k],
        decreases a@.len() - i,
    {
        if a[i] != b[i] {
            return false;
        }
        i = i + 1;
    }
    proof {
        assert(a@ =~= b@);
    }
    true
}

/// Whether two character lists are the same but for the case of ASCII
/// letters.
pub fn same_chars_ignoring_case(a: &[char], b: &[char]) -> (r: bool)
    ensures
        r == (text::lower(a@) == text::lower(b@)),
{
    if a.len() != b.len() {
        proof {
            assert(text::lower(a@).len() != text::lower(b@).len());
        }
        return false;
    }
    let mut i: usize = 0;
    while i < a.len()
        invariant
            i <= a@.len(),
            a@.len() == b@.len(),
            forall|k: int|
                0 <= k < i ==> text::lower_char(a@[k]) == text::lower_char(b@[k]),
        decreases a@.len() - i,
    {
        if to_lower_char(a[i]) != to_lower_char(b[i]) {
            proof {
                assert(text::lower(a@)[i as int] != text::lower(b@)[i as int]);
            }
            return false;
        }
        i = i + 1;
    }
    proof {
        assert(text::lower(a@) =~= text::lower(b@));
    }
    true
}

/// The places of `s` between which no `sep` stands.
pub open spec fn split_on(s: Seq<char>, sep: char) -> Seq<Seq<char>>
    decreases s.len(),
{
    match first_of(s, sep) {
        Some(i) => if 0 <= i < s.len() {
            seq![s.take(i)] + split_on(s.skip(i + 1), sep)
        } else {
            seq![s]
        },
        None => seq![s],
    }
}

/// The views of a list of character lists.
pub open spec fn views(parts: Seq<Vec<char>>) -> Seq<Seq<char>> {
    parts.map_values(|p: Vec<char>| p@)
}

/// The parts of `s` between the places of `sep`.
pub fn split(s: &[char], sep: char) -> (parts: Vec<Vec<char>>)
    ensures
        views(parts@) == split_on(s@, sep),
{
    let mut parts: Vec<Vec<char>> = Vec::new();
    let mut rest: &[char] = s;
    proof {
        assert(views(parts@) + split_on(s@, sep) =~= split_on(s@, sep));
    }
    loop
        invariant
            views(parts@) + split_on(rest@, sep) == split_on(s@, sep),
        ensures
            !rest@.contains(sep),
            views(parts@) + split_on(rest@, sep) == split_on(s@, sep),
        decreases rest@.len(),
    {
        let i: usize = match find_char(rest, sep) {
            Some(i) => i,
            None => {
                break;
            },
        };
        let ghost before = parts@;
        let len: usize = rest.len();
        let head = slice_subrange(rest, 0, i);
        let piece = vstd::slice::slice_to_vec(head);
        parts.push(piece);
        let tail = slice_subrange(rest, i + 1, len);
        proof {
            assert(piece@ =~= rest@.take(i as int));
            assert(tail@ =~= rest@.skip(i + 1));
            assert(views(parts@) =~= views(before).push(rest@.take(i as int)));
            assert(views(parts@) + split_on(tail@, sep) =~= views(before) + (seq![
                rest@.take(i as int),
            ] + split_on(tail@, sep)));
        }
        rest = tail;
    }
    let ghost before = parts@;
    let last = vstd::slice::slice_to_vec(rest);
    parts.push(last);
    proof {
        assert(split_on(rest@, sep) == seq![rest@]);
        assert(last@ =~= rest@);
        assert(views(parts@) =~= views(before) + seq![rest@]);
    }
    parts
}

/// `a` and then `b`.
pub fn join(a: &str, b: &str) -> (r: String)
    ensures
        r@ == a@ + b@,
{
    let mut r = a.to_owned();
    r.append(b);
    r
}

/// A line without the carriage return before its end.
pub open spec fn without_return(line: Seq<char>) -> Seq<char> {
    if line.len() > 0 && line.last() == '\r' {
        line.drop_last()
    } else {
        line
    }
}

/// The lines of a text. The end of the last line may be left out.
pub open spec fn lines_of(s: Seq<char>) -> Seq<Seq<char>>
    decreases s.len(),
{
    if s.len() == 0 {
        Seq::empty()
    } else {
        match first_of(s, '\n') {
            Some(i) => if 0 <= i < s.len() {
                seq![without_return(s.take(i))] + lines_of(s.skip(i + 1))
            } else {
                seq![s]
            },
            None => seq![s],
        }
    }
}

pub open spec fn texts(list: Seq<String>) -> Seq<Seq<char>> {
    list.map_values(|s: String| s@)
}

/// The lines of a text.
pub fn split_lines(text: &str) -> (lines: Vec<String>)
    ensures
        texts(lines@) == lines_of(text@),
{
    let chars = chars_of(text);
    let mut rest: &[char] = chars.as_slice();
    let mut lines: Vec<String> = Vec::new();
    proof {
        assert(texts(lines@) + lines_of(text@) =~= lines_of(text@));
    }
    while rest.len() > 0
        invariant
            texts(lines@) + lines_of(rest@) == lines_of(text@),
        decreases rest@.len(),
    {
        let len: usize = rest.len();
        let ghost before = texts(lines@);
        match find_char(rest, '\n') {
            Some(i) => {
                let mut end: usize = i;
                if i > 0 && rest[i - 1] == '\r' {
                    end = i - 1;
                }
                let line = slice_subrange(rest, 0, end);
                proof {
                    assert(line@ =~= without_return(rest@.take(i as int)));
                }
                lines.push(text_of(line));
                let tail = slice_subrange(rest, i + 1, len);
                proof {
                    assert(tail@ =~= rest@.skip(i + 1));
                    assert(texts(lines@) =~= before.push(line@));
                    assert(texts(lines@) + lines_of(tail@) =~= before + lines_of(rest@));
                }
                rest = tail;
            },
            None => {
                lines.push(text_of(rest));
                let tail = slice_subrange(rest, len, len);
                proof {
                    assert(tail@.len() == 0);
                    assert(texts(lines@) =~= before.push(rest@));
                    assert(texts(lines@) + lines_of(tail@) =~= before + lines_of(rest@));
                }
                rest = tail;
            },
        }
    }
    proof {
        assert(texts(lines@) =~= texts(lines@) + lines_of(rest@));
    }
    lines
}

/// Whether `a` comes before `b`, character by character.
pub open spec fn before(a: Seq<char>, b: Seq<char>) -> bool
    decreases a.len(),
{
    if b.len() == 0 {
        false
    } else if a.len() == 0 {
        true
    } else if a[0] != b[0] {
        a[0] < b[0]
    } else {
        before(a.drop_first(), b.drop_first())
    }
}

/// Of two texts that differ one comes before the other, and never both.
pub proof fn texts_are_ordered(a: Seq<char>, b: Seq<char>)
    ensures
        !(before(a, b) && before(b, a)),
        a != b ==> before(a, b) || before(b, a),
    decreases a.len(),
{
    if a.len() > 0 && b.len() > 0 && a[0] == b[0] {
        texts_are_ordered(a.drop_first(), b.drop_first());
        if a.drop_first() == b.drop_first() {
            assert(a =~= seq![a[0]] + a.drop_first());
            assert(b =~= seq![b[0]] + b.drop_first());
        }
    } else if a.len() == 0 && b.len() == 0 {
        assert(a =~= b);
    }
}

/// A text between two others is behind the first or before the last.
pub proof fn order_has_no_gap(a: Seq<char>, between: Seq<char>, b: Seq<char>)
    requires
        before(a, b),
    ensures
        before(a, between) || before(between, b),
    decreases a.len(),
{
    if a.len() > 0 && between.len() > 0 && a[0] == b[0] && between[0] == a[0] {
        order_has_no_gap(a.drop_first(), between.drop_first(), b.drop_first());
    }
}

pub fn is_before(a: &[char], b: &[char]) -> (r: bool)
    ensures
        r == before(a@, b@),
{
    let mut i: usize = 0;
    proof {
        assert(a@.skip(0) =~= a@);
        assert(b@.skip(0) =~= b@);
    }
    while i < a.len() && i < b.len()
        invariant
            i <= a@.len(),
            i <= b@.len(),
            before(a@, b@) == before(a@.skip(i as int), b@.skip(i as int)),
        decreases a@.len() - i,
    {
        if a[i] != b[i] {
            return a[i] < b[i];
        }
        proof {
            assert(a@.skip(i as int).drop_first() =~= a@.skip(i + 1));
            assert(b@.skip(i as int).drop_first() =~= b@.skip(i + 1));
        }
        i = i + 1;
    }
    i < b.len()
}

/// White space is taken off at both ends of a text, and nowhere else.
pub proof fn trimmed_texts_have_no_space_around_them(s: Seq<char>, before: Seq<char>, behind: Seq<char>)
    requires
        forall|i: int| 0 <= i < before.len() ==> is_space(#[trigger] before[i]),
        forall|i: int| 0 <= i < behind.len() ==> is_space(#[trigger] behind[i]),
        s.len() > 0 ==> !is_space(s[0]) && !is_space(s.last()),
    ensures
        trimmed(before + s + behind) == s,
    decreases before.len() + behind.len(),
{
    let all = before + s + behind;
    if before.len() > 0 {
        let rest = before.drop_first();
        assert forall|i: int| 0 <= i < rest.len() implies is_space(#[trigger] rest[i]) by {
            assert(rest[i] == before[i + 1]);
        }
        trimmed_texts_have_no_space_around_them(s, rest, behind);
        assert(is_space(before[0]));
        assert(all[0] == before[0]);
        assert(all.drop_first() =~= rest + s + behind);
    } else if s.len() > 0 {
        assert(all[0] == s[0]);
        assert(trimmed_start(all) == all);
        assert(all =~= s + behind);
        lemma_trimmed_end(s, behind);
    } else {
        assert(all =~= behind);
        lemma_all_space(behind);
        assert(s =~= Seq::<char>::empty());
    }
}

proof fn lemma_trimmed_end(s: Seq<char>, behind: Seq<char>)
    requires
        s.len() > 0,
        !is_space(s.last()),
        forall|i: int| 0 <= i < behind.len() ==> is_space(#[trigger] behind[i]),
    ensures
        trimmed_end(s + behind) == s,
    decreases behind.len(),
{
    let all = s + behind;
    if behind.len() > 0 {
        let front = behind.drop_last();
        assert forall|i: int| 0 <= i < front.len() implies is_space(#[trigger] front[i]) by {
            assert(front[i] == behind[i]);
        }
        lemma_trimmed_end(s, front);
        assert(is_space(behind[behind.len() - 1]));
        assert(all.drop_last() =~= s + front);
    } else {
        assert(all =~= s);
    }
}

proof fn lemma_all_space(s: Seq<char>)
    requires
        forall|i: int| 0 <= i < s.len() ==> is_space(#[trigger] s[i]),
    ensures
        trimmed(s) == Seq::<char>::empty(),
    decreases s.len(),
{
    if s.len() > 0 {
        let rest = s.drop_first();
        assert forall|i: int| 0 <= i < rest.len() implies is_space(#[trigger] rest[i]) by {
            assert(rest[i] == s[i + 1]);
        }
        assert(is_space(s[0]));
        lemma_all_space(rest);
    } else {
        assert(s =~= Seq::<char>::empty());
    }
}

} // verus!
