//! What the commands on texts promise a script.

use vstd::prelude::*;
use crate::number_text;
use crate::runtime::context::{CommandContext, TextOps};
use crate::runtime::forms::prop_access;
use crate::runtime::forms::str_list;
use crate::runtime::forms::str_list::Outcome;
use crate::runtime::string_semantics;
use crate::runtime::value::Value;
use crate::text;
use crate::text_parts;

verus! {

/// Whether every command on a text has a number of its own.
pub open spec fn apart(ops: TextOps) -> bool {
    seq![
        ops.upper,
        ops.lower,
        ops.cnt,
        ops.len,
        ops.left,
        ops.left_len,
        ops.right,
        ops.right_len,
        ops.mid,
        ops.mid_len,
        ops.search,
        ops.search_last,
        ops.get_code,
        ops.to_num,
    ].no_duplicates()
}

proof fn lemma_apart(ops: TextOps)
    requires
        apart(ops),
    ensures
        ops.upper != ops.lower,
        ops.upper != ops.cnt,
        ops.upper != ops.len,
        ops.upper != ops.left,
        ops.upper != ops.left_len,
        ops.upper != ops.right,
        ops.upper != ops.right_len,
        ops.upper != ops.mid,
        ops.upper != ops.mid_len,
        ops.upper != ops.search,
        ops.upper != ops.search_last,
        ops.upper != ops.get_code,
        ops.upper != ops.to_num,
        ops.lower != ops.cnt,
        ops.lower != ops.len,
        ops.lower != ops.left,
        ops.lower != ops.left_len,
        ops.lower != ops.right,
        ops.lower != ops.right_len,
        ops.lower != ops.mid,
        ops.lower != ops.mid_len,
        ops.lower != ops.search,
        ops.lower != ops.search_last,
        ops.lower != ops.get_code,
        ops.lower != ops.to_num,
        ops.cnt != ops.len,
        ops.cnt != ops.left,
        ops.cnt != ops.left_len,
        ops.cnt != ops.right,
        ops.cnt != ops.right_len,
        ops.cnt != ops.mid,
        ops.cnt != ops.mid_len,
        ops.cnt != ops.search,
        ops.cnt != ops.search_last,
        ops.cnt != ops.get_code,
        ops.cnt != ops.to_num,
        ops.len != ops.left,
        ops.len != ops.left_len,
        ops.len != ops.right,
        ops.len != ops.right_len,
        ops.len != ops.mid,
        ops.len != ops.mid_len,
        ops.len != ops.search,
        ops.len != ops.search_last,
        ops.len != ops.get_code,
        ops.len != ops.to_num,
        ops.left != ops.left_len,
        ops.left != ops.right,
        ops.left != ops.right_len,
        ops.left != ops.mid,
        ops.left != ops.mid_len,
        ops.left != ops.search,
        ops.left != ops.search_last,
        ops.left != ops.get_code,
        ops.left != ops.to_num,
        ops.left_len != ops.right,
        ops.left_len != ops.right_len,
        ops.left_len != ops.mid,
        ops.left_len != ops.mid_len,
        ops.left_len != ops.search,
        ops.left_len != ops.search_last,
        ops.left_len != ops.get_code,
        ops.left_len != ops.to_num,
        ops.right != ops.right_len,
        ops.right != ops.mid,
        ops.right != ops.mid_len,
        ops.right != ops.search,
        ops.right != ops.search_last,
        ops.right != ops.get_code,
        ops.right != ops.to_num,
        ops.right_len != ops.mid,
        ops.right_len != ops.mid_len,
        ops.right_len != ops.search,
        ops.right_len != ops.search_last,
        ops.right_len != ops.get_code,
        ops.right_len != ops.to_num,
        ops.mid != ops.mid_len,
        ops.mid != ops.search,
        ops.mid != ops.search_last,
        ops.mid != ops.get_code,
        ops.mid != ops.to_num,
        ops.mid_len != ops.search,
        ops.mid_len != ops.search_last,
        ops.mid_len != ops.get_code,
        ops.mid_len != ops.to_num,
        ops.search != ops.search_last,
        ops.search != ops.get_code,
        ops.search != ops.to_num,
        ops.search_last != ops.get_code,
        ops.search_last != ops.to_num,
        ops.get_code != ops.to_num,
{
    let all = seq![
        ops.upper,
        ops.lower,
        ops.cnt,
        ops.len,
        ops.left,
        ops.left_len,
        ops.right,
        ops.right_len,
        ops.mid,
        ops.mid_len,
        ops.search,
        ops.search_last,
        ops.get_code,
        ops.to_num,
    ];
    assert(all.no_duplicates());
    assert(all[0] != all[1]);
    assert(all[0] != all[2]);
    assert(all[0] != all[3]);
    assert(all[0] != all[4]);
    assert(all[0] != all[5]);
    assert(all[0] != all[6]);
    assert(all[0] != all[7]);
    assert(all[0] != all[8]);
    assert(all[0] != all[9]);
    assert(all[0] != all[10]);
    assert(all[0] != all[11]);
    assert(all[0] != all[12]);
    assert(all[0] != all[13]);
    assert(all[1] != all[2]);
    assert(all[1] != all[3]);
    assert(all[1] != all[4]);
    assert(all[1] != all[5]);
    assert(all[1] != all[6]);
    assert(all[1] != all[7]);
    assert(all[1] != all[8]);
    assert(all[1] != all[9]);
    assert(all[1] != all[10]);
    assert(all[1] != all[11]);
    assert(all[1] != all[12]);
    assert(all[1] != all[13]);
    assert(all[2] != all[3]);
    assert(all[2] != all[4]);
    assert(all[2] != all[5]);
    assert(all[2] != all[6]);
    assert(all[2] != all[7]);
    assert(all[2] != all[8]);
    assert(all[2] != all[9]);
    assert(all[2] != all[10]);
    assert(all[2] != all[11]);
    assert(all[2] != all[12]);
    assert(all[2] != all[13]);
    assert(all[3] != all[4]);
    assert(all[3] != all[5]);
    assert(all[3] != all[6]);
    assert(all[3] != all[7]);
    assert(all[3] != all[8]);
    assert(all[3] != all[9]);
    assert(all[3] != all[10]);
    assert(all[3] != all[11]);
    assert(all[3] != all[12]);
    assert(all[3] != all[13]);
    assert(all[4] != all[5]);
    assert(all[4] != all[6]);
    assert(all[4] != all[7]);
    assert(all[4] != all[8]);
    assert(all[4] != all[9]);
    assert(all[4] != all[10]);
    assert(all[4] != all[11]);
    assert(all[4] != all[12]);
    assert(all[4] != all[13]);
    assert(all[5] != all[6]);
    assert(all[5] != all[7]);
    assert(all[5] != all[8]);
    assert(all[5] != all[9]);
    assert(all[5] != all[10]);
    assert(all[5] != all[11]);
    assert(all[5] != all[12]);
    assert(all[5] != all[13]);
    assert(all[6] != all[7]);
    assert(all[6] != all[8]);
    assert(all[6] != all[9]);
    assert(all[6] != all[10]);
    assert(all[6] != all[11]);
    assert(all[6] != all[12]);
    assert(all[6] != all[13]);
    assert(all[7] != all[8]);
    assert(all[7] != all[9]);
    assert(all[7] != all[10]);
    assert(all[7] != all[11]);
    assert(all[7] != all[12]);
    assert(all[7] != all[13]);
    assert(all[8] != all[9]);
    assert(all[8] != all[10]);
    assert(all[8] != all[11]);
    assert(all[8] != all[12]);
    assert(all[8] != all[13]);
    assert(all[9] != all[10]);
    assert(all[9] != all[11]);
    assert(all[9] != all[12]);
    assert(all[9] != all[13]);
    assert(all[10] != all[11]);
    assert(all[10] != all[12]);
    assert(all[10] != all[13]);
    assert(all[11] != all[12]);
    assert(all[11] != all[13]);
    assert(all[12] != all[13]);
}

/// The text that a command with one number gives.
pub open spec fn cut(ops: TextOps, s: Seq<char>, op: i32, n: int, al_id: int) -> Option<Seq<char>> {
    match str_list::text_op(ops, s, op, seq![Value::Int(n as i64)], al_id) {
        Outcome::Text(t) => Some(t),
        Outcome::Number(_) => None,
    }
}

/// The number that a command without arguments gives.
pub open spec fn measure(ops: TextOps, s: Seq<char>, op: i32) -> Option<int> {
    match str_list::text_op(ops, s, op, seq![], 0) {
        Outcome::Number(n) => Some(n),
        Outcome::Text(_) => None,
    }
}

/// LEFT gives the front of a text and RIGHT its end, each with as many code
/// units as asked for: where a text is cut between two characters, `k` of them
/// before the cut, LEFT gives just these `k` and RIGHT just the others, so that
/// both together are the text again. MID gives what LEFT leaves.
pub proof fn left_and_right_make_the_text(
    ops: TextOps,
    s: Seq<char>,
    k: int,
    al_id: int,
    left: int,
    right: int,
)
    requires
        apart(ops),
        0 <= k <= s.len(),
        left == text::utf16(s.take(k)).len(),
        right == text::utf16(s.skip(k)).len(),
        left + right <= i64::MAX,
        left + right <= usize::MAX,
    ensures
        left + right == text::utf16(s).len(),
        cut(ops, s, ops.left, left, al_id) == Some(s.take(k)),
        cut(ops, s, ops.right, right, al_id) == Some(s.skip(k)),
        cut(ops, s, ops.mid, left, al_id) == Some(s.skip(k)),
        s.take(k) + s.skip(k) == s,
{
    lemma_apart(ops);
    let front = s.take(k);
    let back = s.skip(k);
    assert(front + back =~= s);
    text::lemma_utf16_concat(front, back);
    let units = text::utf16(s);
    assert(units.take(left) =~= text::utf16(front));
    assert(units.skip(units.len() - right) =~= text::utf16(back));
    assert(units.subrange(left, units.len() as int) =~= text::utf16(back));
    text::utf16_round_trip(front);
    text::utf16_round_trip(back);
}

/// A count of code units that is too large gives the whole text, and one that is
/// not above 0 gives none of it; MID beyond the end gives nothing.
pub proof fn counts_outside_a_text_give_all_or_nothing(
    ops: TextOps,
    s: Seq<char>,
    n: int,
    al_id: int,
)
    requires
        apart(ops),
        i64::MIN <= n <= i64::MAX,
        n <= usize::MAX,
        text::utf16(s).len() <= i64::MAX,
        text::utf16(s).len() <= usize::MAX,
    ensures
        n >= text::utf16(s).len() ==> cut(ops, s, ops.left, n, al_id) == Some(s) && cut(
            ops,
            s,
            ops.right,
            n,
            al_id,
        ) == Some(s) && cut(ops, s, ops.mid, n, al_id) == Some(Seq::<char>::empty()),
        n <= 0 ==> cut(ops, s, ops.left, n, al_id) == Some(Seq::<char>::empty()) && cut(
            ops,
            s,
            ops.right,
            n,
            al_id,
        ) == Some(Seq::<char>::empty()) && cut(ops, s, ops.mid, n, al_id) == Some(s),
{
    lemma_apart(ops);
    let units = text::utf16(s);
    let all = units.len() as int;
    assert(units.take(all) =~= units);
    assert(units.skip(0) =~= units);
    assert(units.subrange(0, all) =~= units);
    assert(units.take(0) =~= Seq::<u16>::empty());
    assert(units.skip(all) =~= Seq::<u16>::empty());
    assert(units.subrange(all, all) =~= Seq::<u16>::empty());
    text::utf16_round_trip(s);
    assert(text::decoded_lossy(Seq::<u16>::empty()) =~= Seq::<char>::empty());
}

/// MID with a length gives the part between two places, whichever characters
/// stand before and behind it; without a length, or where the call has none, it
/// goes to the end.
pub proof fn mid_gives_the_part_between(
    ops: TextOps,
    front: Seq<char>,
    part: Seq<char>,
    back: Seq<char>,
    start: i64,
    len: i64,
    more: i64,
    al_id: int,
)
    requires
        apart(ops),
        len <= more <= usize::MAX,
        start == text::utf16(front).len(),
        len == text::utf16(part).len(),
        start + len + text::utf16(back).len() <= usize::MAX,
    ensures
        al_id != 0 ==> str_list::text_op(
            ops,
            front + part + back,
            ops.mid,
            seq![Value::Int(start), Value::Int(len)],
            al_id,
        ) == Outcome::Text(part),
        al_id == 0 ==> str_list::text_op(
            ops,
            front + part + back,
            ops.mid,
            seq![Value::Int(start), Value::Int(len)],
            al_id,
        ) == Outcome::Text(part + back),
        al_id != 0 && back.len() == 0 ==> str_list::text_op(
            ops,
            front + part + back,
            ops.mid,
            seq![Value::Int(start), Value::Int(more)],
            al_id,
        ) == Outcome::Text(part),
{
    lemma_apart(ops);
    let s = front + part + back;
    let units = text::utf16(s);
    text::lemma_utf16_concat(front + part, back);
    text::lemma_utf16_concat(front, part);
    text::lemma_utf16_concat(part, back);
    assert(units.subrange(start as int, start + len) =~= text::utf16(part));
    assert(units.subrange(start as int, units.len() as int) =~= text::utf16(part + back));
    text::utf16_round_trip(part);
    text::utf16_round_trip(part + back);
    if back.len() == 0 {
        assert(part + back =~= part);
        assert(text::utf16(back).len() == 0);
    }
}

/// CNT counts the code units of a text: none for the empty one, and for every
/// character more one, or two where its number lies above 0xffff. LEN counts
/// columns: one for ASCII, the yen sign, the overline and half-width katakana,
/// and two for every other character.
pub proof fn characters_add_to_the_counts(ops: TextOps, s: Seq<char>, c: char)
    requires
        apart(ops),
        text::utf16(s).len() + 2 <= i64::MAX,
        string_semantics::width(s) + 2 <= i64::MAX,
    ensures
        measure(ops, Seq::empty(), ops.cnt) == Some(0int),
        measure(ops, Seq::empty(), ops.len) == Some(0int),
        measure(ops, s, ops.cnt) is Some,
        measure(ops, s, ops.len) is Some,
        measure(ops, s.push(c), ops.cnt) == Some(
            measure(ops, s, ops.cnt)->0 + if (c as u32) > 0xffff {
                2int
            } else {
                1
            },
        ),
        measure(ops, s.push(c), ops.len) == Some(
            measure(ops, s, ops.len)->0 + if (c as u32) < 0x80 || c as u32 == 0xa5 || c as u32
                == 0x203e || (0xff61 <= (c as u32) && (c as u32) <= 0xff9f) {
                1int
            } else {
                2
            },
        ),
{
    lemma_apart(ops);
    text::lemma_utf16_push(s, c);
    assert(s.push(c).drop_last() =~= s);
    lemma_widths(s);
}

proof fn lemma_widths(s: Seq<char>)
    ensures
        s.len() <= string_semantics::width(s) <= 2 * s.len(),
    decreases s.len(),
{
    if s.len() > 0 {
        lemma_widths(s.drop_last());
    }
}

/// LEFT_LEN gives the longest front of a text that fits into the columns, and
/// RIGHT_LEN the longest end: one character more, and LEN says it does not fit.
pub proof fn cuts_by_columns_are_longest(ops: TextOps, s: Seq<char>, n: int, al_id: int)
    requires
        apart(ops),
        0 <= n <= i64::MAX,
        n <= usize::MAX,
        2 * s.len() <= i64::MAX,
    ensures
        ({
            let l = cut(ops, s, ops.left_len, n, al_id)->0;
            &&& cut(ops, s, ops.left_len, n, al_id) is Some
            &&& l.len() <= s.len() && l == s.take(l.len() as int)
            &&& measure(ops, l, ops.len)->0 <= n
            &&& l.len() < s.len() ==> measure(ops, s.take(l.len() as int + 1), ops.len)->0 > n
        }),
        ({
            let e = cut(ops, s, ops.right_len, n, al_id)->0;
            &&& cut(ops, s, ops.right_len, n, al_id) is Some
            &&& e.len() <= s.len() && e == s.skip(s.len() - e.len())
            &&& measure(ops, e, ops.len)->0 <= n
            &&& e.len() < s.len() ==> measure(ops, s.skip(s.len() - e.len() - 1), ops.len)->0 > n
        }),
{
    lemma_apart(ops);
    string_semantics::fitting_is_greatest(s, n);
    let k = string_semantics::fitting(s, n);
    lemma_widths(s.take(k));
    if k < s.len() {
        lemma_widths(s.take(k + 1));
    }
    let turned = s.reverse();
    string_semantics::fitting_is_greatest(turned, n);
    let m = string_semantics::fitting(turned, n);
    let e = s.skip(s.len() - m);
    lemma_turned_width(e);
    assert(e.reverse() =~= turned.take(m));
    lemma_widths(e);
    if m < s.len() {
        let longer = s.skip(s.len() - m - 1);
        lemma_turned_width(longer);
        assert(longer.reverse() =~= turned.take(m + 1));
        lemma_widths(longer);
    }
}

proof fn lemma_width_of_two(a: Seq<char>, b: Seq<char>)
    ensures
        string_semantics::width(a + b) == string_semantics::width(a) + string_semantics::width(b),
    decreases b.len(),
{
    if b.len() == 0 {
        assert(a + b =~= a);
    } else {
        assert((a + b).drop_last() =~= a + b.drop_last());
        lemma_width_of_two(a, b.drop_last());
    }
}

proof fn lemma_turned_width(s: Seq<char>)
    ensures
        string_semantics::width(s.reverse()) == string_semantics::width(s),
    decreases s.len(),
{
    if s.len() > 0 {
        let front = s.drop_last();
        let one = seq![s.last()];
        lemma_turned_width(front);
        assert(s.reverse() =~= one + front.reverse());
        lemma_width_of_two(one, front.reverse());
        assert(one.drop_last() =~= Seq::<char>::empty());
        reveal_with_fuel(string_semantics::width, 2);
        assert(string_semantics::width(one) == string_semantics::char_width(s.last()));
    }
}

/// MID_LEN leaves out just the characters that begin before the column, and of
/// the others gives the longest front that ends within the columns asked for.
pub proof fn middles_begin_and_end_at_columns(
    ops: TextOps,
    s: Seq<char>,
    start: i64,
    len: i64,
    al_id: int,
    at: int,
)
    requires
        apart(ops),
        0 <= start,
        0 <= len,
        start + len <= usize::MAX,
        0 <= at <= s.len(),
        2 * s.len() <= i64::MAX,
        at < s.len() ==> measure(ops, s.take(at), ops.len)->0 >= start,
        at > 0 ==> measure(ops, s.take(at - 1), ops.len)->0 < start,
    ensures
        cut(ops, s, ops.mid_len, start as int, 0) == Some(s.skip(at)),
        al_id != 0 ==> (str_list::text_op(
            ops,
            s,
            ops.mid_len,
            seq![Value::Int(start), Value::Int(len)],
            al_id,
        ) matches Outcome::Text(t) && {
            let end = at + t.len();
            &&& end <= s.len() && t == s.subrange(at, end as int)
            &&& t.len() > 0 ==> measure(ops, s.take(end as int), ops.len)->0 <= start + len
            &&& end < s.len() ==> measure(ops, s.take(end as int + 1), ops.len)->0 > start + len
        }),
{
    lemma_apart(ops);
    let k = string_semantics::skipping(s, start as int);
    if at < s.len() {
        string_semantics::skipping_is_exact(s, start as int, at);
        lemma_widths(s.take(at));
    }
    if at > 0 {
        string_semantics::skipping_is_exact(s, start as int, at - 1);
        lemma_widths(s.take(at - 1));
    }
    lemma_skipped(s, start as int);
    assert(k == at);
    let rest = s.skip(at);
    let front = s.take(at);
    let limit = start + len - string_semantics::width(front);
    let m = string_semantics::fitting(rest, limit);
    lemma_fitting(rest, limit);
    let end = at + m;
    assert(rest.take(m) =~= s.subrange(at, end));
    assert(front + rest.take(m) =~= s.take(end));
    lemma_width_of_two(front, rest.take(m));
    lemma_widths(s.take(end));
    if end < s.len() {
        assert(front + rest.take(m + 1) =~= s.take(end + 1));
        lemma_width_of_two(front, rest.take(m + 1));
        lemma_widths(s.take(end + 1));
    }
}

proof fn lemma_skipped(s: Seq<char>, start: int)
    ensures
        0 <= string_semantics::skipping(s, start) <= s.len(),
    decreases s.len(),
{
    if s.len() > 0 && start > 0 {
        lemma_skipped(s.drop_first(), start - string_semantics::char_width(s[0]));
    }
}

proof fn lemma_fitting(s: Seq<char>, limit: int)
    ensures
        ({
            let m = string_semantics::fitting(s, limit);
            &&& 0 <= m <= s.len()
            &&& m > 0 ==> string_semantics::width(s.take(m)) <= limit
            &&& m < s.len() ==> string_semantics::width(s.take(m + 1)) > limit
        }),
{
    if limit >= 0 {
        string_semantics::fitting_is_greatest(s, limit);
    } else if s.len() > 0 {
        lemma_widths(s.take(1));
    }
}

/// UPPER and LOWER change ASCII letters alone, and keep every other character
/// and the place of all.
pub proof fn letters_change_their_size_alone(ops: TextOps, s: Seq<char>, i: int)
    requires
        apart(ops),
        0 <= i < s.len(),
    ensures
        str_list::text_op(ops, s, ops.upper, seq![], 0) matches Outcome::Text(t) && t.len()
            == s.len() && (if 'a' <= s[i] && s[i] <= 'z' {
            t[i] as u32 + 32 == s[i] as u32
        } else {
            t[i] == s[i]
        }),
        str_list::text_op(ops, s, ops.lower, seq![], 0) matches Outcome::Text(t) && t.len()
            == s.len() && (if 'A' <= s[i] && s[i] <= 'Z' {
            t[i] as u32 == s[i] as u32 + 32
        } else {
            t[i] == s[i]
        }),
{
    lemma_apart(ops);
}

/// GET_CODE gives the code unit at a place, and -1 outside the text; and TO_NUM
/// gives the number that a text writes, and 0 where it writes none.
pub proof fn codes_and_numbers_are_read(ops: TextOps, s: Seq<char>, n: i64, c: char)
    requires
        apart(ops),
    ensures
        (n < 0 || n >= text::utf16(s).len()) ==> str_list::text_op(
            ops,
            s,
            ops.get_code,
            seq![Value::Int(n)],
            0,
        ) == Outcome::Number(-1),
        n == text::utf16(s).len() && c as u32 <= 0xffff ==> str_list::text_op(
            ops,
            s.push(c),
            ops.get_code,
            seq![Value::Int(n)],
            0,
        ) == Outcome::Number(c as u32 as int),
        str_list::text_op(ops, number_text::decimal(n as int), ops.to_num, seq![], 0)
            == Outcome::Number(n as int),
        str_list::text_op(ops, seq!['x'] + s, ops.to_num, seq![], 0) == Outcome::Number(0),
{
    lemma_apart(ops);
    text::lemma_utf16_push(s, c);
    number_text::number_round_trip(n as int);
    let bad = seq!['x'] + s;
    assert(number_text::without_sign(bad)[0] == 'x');
    assert(!number_text::is_digit('x'));
    assert(!number_text::all_digits(number_text::without_sign(bad)));
}

/// SEARCH gives the first place, in code units, at which the wanted text stands,
/// capital and small ASCII letters being alike, and SEARCH_LAST the last; both
/// give -1 where it stands nowhere.
pub proof fn searches_find_the_first_and_the_last_place(
    ops: TextOps,
    s: Seq<char>,
    wanted: Seq<char>,
    param: Value,
    at: int,
)
    requires
        apart(ops),
        param.text() == Some(wanted),
        text::utf16(text::lower(s)).len() <= i64::MAX,
        0 <= at,
        at + wanted.len() <= s.len(),
        forall|i: int|
            0 <= i < wanted.len() ==> text::lower_char(#[trigger] s[at + i]) == text::lower_char(
                wanted[i],
            ),
    ensures
        str_list::text_op(ops, s, ops.search, seq![param], 0) matches Outcome::Number(p) && 0 <= p
            <= text::utf16(text::lower(s).take(at)).len(),
        str_list::text_op(ops, s, ops.search_last, seq![param], 0) matches Outcome::Number(p) && p
            >= text::utf16(text::lower(s).take(at)).len(),
{
    lemma_apart(ops);
    let hay = text::lower(s);
    let needle = text::lower(wanted);
    assert(hay.subrange(at, at + needle.len()) =~= needle) by {
        assert forall|i: int| 0 <= i < needle.len() implies hay.subrange(
            at,
            at + needle.len(),
        )[i] == needle[i] by {
            assert(text::lower_char(s[at + i]) == text::lower_char(wanted[i]));
        }
    }
    assert(string_semantics::stands_at(hay, needle, at));
    string_semantics::first_place_is_first(hay, needle, 0);
    string_semantics::last_place_is_last(hay, needle, hay.len() as int);
    let first = string_semantics::first_from(hay, needle, 0)->0;
    let last = string_semantics::last_from(hay, needle, hay.len() as int)->0;
    lemma_prefix_units(hay, first, at);
    lemma_prefix_units(hay, at, last);
    lemma_prefix_units(hay, first, hay.len() as int);
    lemma_prefix_units(hay, last, hay.len() as int);
    assert(hay.take(hay.len() as int) =~= hay);
    assert(seq![param][0] == param);
}

proof fn lemma_prefix_units(s: Seq<char>, a: int, b: int)
    requires
        0 <= a <= b <= s.len(),
    ensures
        text::utf16(s.take(a)).len() <= text::utf16(s.take(b)).len(),
{
    assert(s.take(a) + s.subrange(a, b) =~= s.take(b));
    text::lemma_utf16_concat(s.take(a), s.subrange(a, b));
}

/// What SEARCH and SEARCH_LAST found is there: a text whose last characters are
/// the wanted ones is found, and one that is too short is not.
pub proof fn searches_find_nothing_else(
    ops: TextOps,
    s: Seq<char>,
    wanted: Seq<char>,
    param: Value,
    p: int,
)
    requires
        apart(ops),
        param.text() == Some(wanted),
        text::utf16(text::lower(s)).len() <= i64::MAX,
        str_list::text_op(ops, s, ops.search, seq![param], 0) == Outcome::Number(p)
            || str_list::text_op(ops, s, ops.search_last, seq![param], 0) == Outcome::Number(p),
    ensures
        p >= -1,
        p >= 0 ==> exists|at: int|
            0 <= at && at + wanted.len() <= s.len() && p == text::utf16(
                #[trigger] text::lower(s).take(at),
            ).len() && text::lower(s).subrange(at, at + wanted.len()) == text::lower(wanted),
        wanted.len() > s.len() ==> p == -1,
{
    lemma_apart(ops);
    let hay = text::lower(s);
    let needle = text::lower(wanted);
    assert(seq![param][0] == param);
    string_semantics::first_place_is_first(hay, needle, 0);
    string_semantics::last_place_is_last(hay, needle, hay.len() as int);
    let first = string_semantics::first_from(hay, needle, 0);
    let last = string_semantics::last_from(hay, needle, hay.len() as int);
    if let Some(at) = first {
        lemma_prefix_units(hay, at, hay.len() as int);
        assert(hay.take(hay.len() as int) =~= hay);
        assert(hay.take(at) == text::lower(s).take(at));
    }
    if let Some(at) = last {
        lemma_prefix_units(hay, at, hay.len() as int);
        assert(hay.take(hay.len() as int) =~= hay);
        assert(hay.take(at) == text::lower(s).take(at));
    }
}

/// A command that stores a text in a list changes that text alone, and one that
/// reads a text gives what is stored and changes none.
pub proof fn stored_texts_are_read_back(
    ctx: CommandContext,
    form_id: u32,
    args: Seq<Value>,
    path: Seq<i32>,
    list: Seq<Seq<char>>,
    i: int,
)
    requires
        path.len() == 3,
        0 <= path[2] < list.len(),
        0 <= i < list.len(),
        ctx.globals.str_lists@.contains_key(form_id),
        list == text_parts::texts(ctx.globals.str_lists@[form_id]@),
    ensures
        ({
            let effect = str_list::element_effect(ctx, form_id, args, path);
            &&& effect.list is Some && effect.list->0.len() >= list.len()
            &&& i != path[2] ==> effect.list->0[i] == list[i]
            &&& prop_access::call_al_id(ctx) == 1 ==> effect.result == Outcome::Number(0) && (
            args.len() > 0 && args[0] is Str ==> effect.list->0[path[2] as int] == args[0]->Str_0@)
            &&& prop_access::call_al_id(ctx) != 1 ==> effect.result == Outcome::Text(
                list[path[2] as int],
            ) && effect.list->0[path[2] as int] == list[path[2] as int]
        }),
{
}

/// A list that is resized keeps the texts in front, and what it gains is empty;
/// its size is the number of its texts; and a list that is made new holds empty
/// texts alone.
pub proof fn resized_lists_keep_their_front(
    ctx: CommandContext,
    form_id: u32,
    n: i64,
    list: Seq<Seq<char>>,
    i: int,
)
    requires
        ctx.globals.str_lists@.contains_key(form_id),
        list == text_parts::texts(ctx.globals.str_lists@[form_id]@),
        str_list::fixed_length(ctx.ids, ctx.tables, form_id) is None,
        ctx.ids.str_list.init != ctx.ids.str_list.resize,
        ctx.ids.str_list.init != ctx.ids.str_list.get_size,
        ctx.ids.str_list.resize != ctx.ids.str_list.get_size,
        0 <= n <= usize::MAX,
        list.len() <= i64::MAX,
        0 <= i < n,
    ensures
        ({
            let args = seq![Value::Int(n)];
            let ops = ctx.ids.str_list;
            let made = str_list::list_effect(ctx, form_id, ops.resize, args);
            let asked = str_list::list_effect(ctx, form_id, ops.get_size, args);
            let fresh = str_list::list_effect(ctx, form_id, ops.init, args);
            &&& made.list is Some && made.list->0.len() == n
            &&& made.list->0[i] == (if i < list.len() {
                list[i]
            } else {
                Seq::empty()
            })
            &&& asked.list == Some(list) && asked.result == Outcome::Number(list.len() as int)
            &&& fresh.list is Some && fresh.list->0.len() == 0
        }),
{
}

} // verus!
