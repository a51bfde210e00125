//! The wipe that follows a load.

use vstd::prelude::*;
use crate::number_text;
use crate::number_text::parse_i64_chars;
use crate::text::chars_of;

verus! {

/// Whether a character may stand in a number.
pub open spec fn in_number(c: char) -> bool {
    c == '-' || number_text::is_digit(c)
}

/// How many characters of a number `s` begins with.
pub open spec fn run_len(s: Seq<char>) -> int
    decreases s.len(),
{
    if s.len() == 0 || !in_number(s[0]) {
        0
    } else {
        1 + run_len(s.drop_first())
    }
}

/// The number that `s` writes, where it fits 32 bits.
pub open spec fn short_number(s: Seq<char>) -> Option<int> {
    number_text::number_within(s, i32::MIN as int, i32::MAX as int)
}

/// The numbers of a text, whatever stands between them. What writes no number
/// is left out.
pub open spec fn numbers_in(s: Seq<char>) -> Seq<int>
    decreases s.len(),
{
    let n = run_len(s);
    let head = match short_number(s.take(n)) {
        Some(v) => seq![v],
        None => Seq::empty(),
    };
    if 0 <= n < s.len() {
        head + numbers_in(s.skip(n + 1))
    } else {
        head
    }
}

/// The number at `i`, or `otherwise` where there are not so many.
pub open spec fn number_or(list: Seq<int>, i: int, otherwise: int) -> int {
    if 0 <= i < list.len() {
        list[i]
    } else {
        otherwise
    }
}

/// The numbers of a setting, where there is one.
pub open spec fn setting_numbers(text: Option<&str>) -> Seq<int> {
    match text {
        Some(t) => numbers_in(t@),
        None => Seq::empty(),
    }
}

fn find_run(s: &[char], from: usize) -> (end: usize)
    requires
        from <= s@.len(),
    ensures
        from <= end <= s@.len(),
        end == from + run_len(s@.skip(from as int)),
{
    let mut end: usize = from;
    while end < s.len() && (s[end] == '-' || ('0' <= s[end] && s[end] <= '9'))
        invariant
            from <= end <= s@.len(),
            run_len(s@.skip(from as int)) == end - from + run_len(s@.skip(end as int)),
        decreases s@.len() - end,
    {
        proof {
            assert(s@.skip(end as int).drop_first() =~= s@.skip(end + 1));
        }
        end = end + 1;
    }
    end
}

fn read_number(s: &[char]) -> (r: Option<i32>)
    ensures
        match r {
            Some(v) => short_number(s@) == Some(v as int),
            None => short_number(s@) is None,
        },
{
    match parse_i64_chars(s) {
        Some(v) => if -0x8000_0000 <= v && v <= 0x7fff_ffff {
            Some(v as i32)
        } else {
            None
        },
        None => None,
    }
}

fn read_numbers(s: &[char]) -> (list: Vec<i32>)
    ensures
        list@.map_values(|v: i32| v as int) == numbers_in(s@),
{
    let mut list: Vec<i32> = Vec::new();
    let mut from: usize = 0;
    let ghost value = |v: i32| v as int;
    proof {
        assert(s@.skip(0) =~= s@);
        assert(list@.map_values(value) + numbers_in(s@.skip(0)) =~= numbers_in(s@));
    }
    loop
        invariant_except_break
            from <= s@.len(),
            list@.map_values(value) + numbers_in(s@.skip(from as int)) == numbers_in(s@),
        invariant
            value == (|v: i32| v as int),
        ensures
            list@.map_values(value) == numbers_in(s@),
        decreases s@.len() - from,
    {
        let end: usize = find_run(s, from);
        let ghost rest = s@.skip(from as int);
        let ghost before = list@.map_values(value);
        let run = vstd::slice::slice_subrange(s, from, end);
        proof {
            assert(run@ =~= rest.take(end - from));
        }
        if let Some(v) = read_number(run) {
            list.push(v);
            proof {
                assert(list@.map_values(value) =~= before.push(v as int));
            }
        }
        if end >= s.len() {
            proof {
                assert(list@.map_values(value) =~= before + numbers_in(rest));
            }
            break;
        }
        proof {
            assert(rest.skip(end - from + 1) =~= s@.skip(end + 1));
            assert(list@.map_values(value) + numbers_in(s@.skip(end + 1)) =~= before + numbers_in(
                rest,
            ));
        }
        from = end + 1;
    }
    list
}

/// The type and the duration of the wipe after a load: the first two numbers
/// of the setting. Without them the type is 0 and the duration 1000.
pub fn load_wipe_of(text: Option<&str>) -> (r: (i32, i32))
    ensures
        r.0 == number_or(setting_numbers(text), 0, 0),
        r.1 == number_or(setting_numbers(text), 1, 1000),
{
    let list: Vec<i32> = match text {
        Some(t) => {
            let chars = chars_of(t);
            read_numbers(chars.as_slice())
        },
        None => Vec::new(),
    };
    proof {
        let value = |v: i32| v as int;
        assert(list@.map_values(value) =~= setting_numbers(text));
        assert forall|i: int| 0 <= i < list@.len() implies (#[trigger] list@[i]) as int
            == setting_numbers(text)[i] by {
            assert(list@.map_values(value)[i] == list@[i] as int);
        }
    }
    let wipe_type: i32 = if list.len() > 0 {
        list[0]
    } else {
        0
    };
    let duration: i32 = if list.len() > 1 {
        list[1]
    } else {
        1000
    };
    (wipe_type, duration)
}

/// A setting of two numbers with anything but digits and minus between them
/// gives just these.
pub proof fn two_numbers_are_the_wipe(
    wipe_type: Seq<char>,
    between: char,
    duration: Seq<char>,
    a: int,
    b: int,
)
    requires
        forall|i: int| 0 <= i < wipe_type.len() ==> in_number(#[trigger] wipe_type[i]),
        forall|i: int| 0 <= i < duration.len() ==> in_number(#[trigger] duration[i]),
        !in_number(between),
        short_number(wipe_type) == Some(a),
        short_number(duration) == Some(b),
    ensures
        numbers_in(wipe_type.push(between) + duration) == seq![a, b],
{
    let s = wipe_type.push(between) + duration;
    lemma_run_is(wipe_type, s.skip(wipe_type.len() as int));
    assert(wipe_type + s.skip(wipe_type.len() as int) =~= s);
    assert(s.take(wipe_type.len() as int) =~= wipe_type);
    let rest = s.skip(wipe_type.len() as int + 1);
    assert(rest =~= duration);
    lemma_run_is(duration, Seq::empty());
    assert(duration + Seq::<char>::empty() =~= duration);
    assert(duration.take(duration.len() as int) =~= duration);
    assert(numbers_in(rest) =~= seq![b]);
    assert(numbers_in(s) =~= seq![a, b]);
}

proof fn lemma_run_is(run: Seq<char>, rest: Seq<char>)
    requires
        forall|i: int| 0 <= i < run.len() ==> in_number(#[trigger] run[i]),
        rest.len() > 0 ==> !in_number(rest[0]),
    ensures
        run_len(run + rest) == run.len(),
    decreases run.len(),
{
    let all = run + rest;
    if run.len() > 0 {
        let tail = run.drop_first();
        assert forall|i: int| 0 <= i < tail.len() implies in_number(#[trigger] tail[i]) by {
            assert(tail[i] == run[i + 1]);
        }
        assert(in_number(run[0]));
        lemma_run_is(tail, rest);
        assert(all.drop_first() =~= tail + rest);
        assert(all[0] == run[0]);
    } else {
        assert(all =~= rest);
    }
}

} // verus!
