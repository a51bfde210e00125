//! The names of the system and the processor, from what the system says of
//! itself.

use vstd::prelude::*;
use vstd::slice::slice_subrange;
use crate::text::{chars_of, text_of};
use crate::text_parts;
use crate::text_parts::{
    find_char, join, same_chars, space, split_lines, starts_with, trim, trim_chars,
};

verus! {

/// How long the run at the front is of characters that are space, or are not.
pub open spec fn run_len(s: Seq<char>, space: bool) -> int
    decreases s.len(),
{
    if s.len() > 0 && text_parts::is_space(s[0]) == space {
        1 + run_len(s.drop_first(), space)
    } else {
        0
    }
}

/// The words of a text with one space between them.
pub open spec fn squashed(s: Seq<char>) -> Seq<char>
    decreases s.len(),
{
    let rest = s.skip(run_len(s, true));
    let n = run_len(rest, false);
    if n <= 0 || rest.len() > s.len() || n > rest.len() {
        Seq::empty()
    } else {
        let tail = squashed(rest.skip(n));
        if tail.len() == 0 {
            rest.take(n)
        } else {
            rest.take(n).push(' ') + tail
        }
    }
}

fn find_run(s: &[char], spaces: bool) -> (n: usize)
    ensures
        n == run_len(s@, spaces),
        n <= s@.len(),
{
    let mut n: usize = 0;
    proof {
        assert(s@.skip(0) =~= s@);
    }
    while n < s.len() && space(s[n]) == spaces
        invariant
            n <= s@.len(),
            run_len(s@, spaces) == n + run_len(s@.skip(n as int), spaces),
        decreases s@.len() - n,
    {
        proof {
            assert(s@.skip(n as int).drop_first() =~= s@.skip(n + 1));
        }
        n = n + 1;
    }
    n
}

/// The words of a text with one space between them.
pub fn squash_spaces(s: &[char]) -> (r: Vec<char>)
    ensures
        r@ == squashed(s@),
    decreases s@.len(),
{
    let len: usize = s.len();
    let lead: usize = find_run(s, true);
    let rest = slice_subrange(s, lead, len);
    proof {
        assert(rest@ =~= s@.skip(lead as int));
    }
    let n: usize = find_run(rest, false);
    if n == 0 {
        return Vec::new();
    }
    let rest_len: usize = rest.len();
    let tail_chars = slice_subrange(rest, n, rest_len);
    proof {
        assert(tail_chars@ =~= rest@.skip(n as int));
    }
    let mut tail = squash_spaces(tail_chars);
    let mut r: Vec<char> = vstd::slice::slice_to_vec(slice_subrange(rest, 0, n));
    proof {
        assert(r@ =~= rest@.take(n as int));
    }
    if tail.len() > 0 {
        r.push(' ');
        r.append(&mut tail);
    }
    r
}

/// The text with every pair of `a` and `b` replaced by `c`.
pub open spec fn replaced(s: Seq<char>, a: char, b: char, c: char) -> Seq<char>
    decreases s.len(),
{
    if s.len() == 0 {
        Seq::empty()
    } else if s.len() >= 2 && s[0] == a && s[1] == b {
        seq![c] + replaced(s.skip(2), a, b, c)
    } else {
        seq![s[0]] + replaced(s.skip(1), a, b, c)
    }
}

fn replace_pair(s: &[char], a: char, b: char, c: char) -> (r: Vec<char>)
    ensures
        r@ == replaced(s@, a, b, c),
{
    let len: usize = s.len();
    let mut r: Vec<char> = Vec::new();
    let mut i: usize = 0;
    proof {
        assert(s@.skip(0) =~= s@);
        assert(r@ + replaced(s@, a, b, c) =~= replaced(s@, a, b, c));
    }
    while i < len
        invariant
            len == s@.len(),
            i <= len,
            r@ + replaced(s@.skip(i as int), a, b, c) == replaced(s@, a, b, c),
        decreases len - i,
    {
        let ghost rest = s@.skip(i as int);
        let ghost before = r@;
        if len - i >= 2 && s[i] == a && s[i + 1] == b {
            r.push(c);
            i = i + 2;
            proof {
                assert(rest.skip(2) =~= s@.skip(i as int));
                assert(r@ + replaced(s@.skip(i as int), a, b, c) =~= before + replaced(rest, a, b, c));
            }
        } else {
            r.push(s[i]);
            i = i + 1;
            proof {
                assert(rest.skip(1) =~= s@.skip(i as int));
                assert(r@ + replaced(s@.skip(i as int), a, b, c) =~= before + replaced(rest, a, b, c));
            }
        }
    }
    proof {
        assert(r@ =~= r@ + replaced(s@.skip(i as int), a, b, c));
    }
    r
}

/// The text between quotes, or the text where it is not quoted.
pub open spec fn unquoted(s: Seq<char>) -> Seq<char> {
    if s.len() >= 2 && s[0] == '"' && s.last() == '"' {
        s.subrange(1, s.len() - 1)
    } else {
        s
    }
}

/// The name that a line gives to the system, where it gives one.
pub open spec fn pretty_name(line: Seq<char>) -> Option<Seq<char>> {
    let key = "PRETTY_NAME="@;
    if key.is_prefix_of(line) {
        let raw = text_parts::trimmed(line.skip(key.len() as int));
        let name = replaced(replaced(unquoted(raw), '\\', '"', '"'), '\\', '\\', '\\');
        if name.len() == 0 {
            None
        } else {
            Some(name)
        }
    } else {
        None
    }
}

/// The first name that the lines from `k` on give.
pub open spec fn first_pretty_name(lines: Seq<Seq<char>>, k: int) -> Option<Seq<char>>
    decreases lines.len() - k,
{
    if k < 0 || k >= lines.len() {
        None
    } else if pretty_name(lines[k]) is Some {
        pretty_name(lines[k])
    } else {
        first_pretty_name(lines, k + 1)
    }
}

fn find_pretty_name(line: &[char]) -> (r: Option<Vec<char>>)
    ensures
        match r {
            Some(name) => pretty_name(line@) == Some(name@),
            None => pretty_name(line@) is None,
        },
{
    let key = chars_of("PRETTY_NAME=");
    let n: usize = key.len();
    let len: usize = line.len();
    if !starts_with(line, key.as_slice()) {
        return None;
    }
    let behind = slice_subrange(line, n, len);
    proof {
        assert(behind@ =~= line@.skip(n as int));
    }
    let raw = trim_chars(behind);
    let size: usize = raw.len();
    let inner = if size >= 2 && raw[0] == '"' && raw[size - 1] == '"' {
        slice_subrange(raw, 1, size - 1)
    } else {
        raw
    };
    let once = replace_pair(inner, '\\', '"', '"');
    let name = replace_pair(once.as_slice(), '\\', '\\', '\\');
    if name.len() == 0 {
        None
    } else {
        Some(name)
    }
}

/// The name of a Linux system, from the file that describes its release.
pub fn linux_os_name(release: Option<&str>, arch: &str) -> (r: String)
    ensures
        r@ == (match release {
            Some(text) => match first_pretty_name(text_parts::lines_of(text@), 0) {
                Some(name) => name,
                None => "Linux"@,
            },
            None => "Linux"@,
        }) + " "@ + arch@,
{
    let mut name = "Linux".to_owned();
    if let Some(text) = release {
        let lines = split_lines(text);
        let ghost all = text_parts::lines_of(text@);
        let mut k: usize = 0;
        let mut found: bool = false;
        while k < lines.len() && !found
            invariant
                text_parts::texts(lines@) == all,
                k <= lines@.len(),
                found ==> first_pretty_name(all, 0) == Some(name@),
                !found ==> name@ == "Linux"@ && first_pretty_name(all, 0) == first_pretty_name(
                    all,
                    k as int,
                ),
            decreases lines@.len() - k,
        {
            let chars = chars_of(lines[k].as_str());
            proof {
                assert(all[k as int] == chars@);
            }
            match find_pretty_name(chars.as_slice()) {
                Some(v) => {
                    name = text_of(v.as_slice());
                    found = true;
                },
                None => {},
            }
            k = k + 1;
        }
    }
    let front = join(name.as_str(), " ");
    join(front.as_str(), arch)
}

/// The value of a line of the form `key: value`.
pub open spec fn value_for(line: Seq<char>, key: Seq<char>) -> Option<Seq<char>> {
    match text_parts::first_of(line, ':') {
        Some(i) => if text_parts::trimmed(line.take(i)) == key {
            Some(squashed(text_parts::trimmed(line.skip(i + 1))))
        } else {
            None
        },
        None => None,
    }
}

/// The first value for a key, from line `k` on.
pub open spec fn first_value(lines: Seq<Seq<char>>, key: Seq<char>, k: int) -> Option<Seq<char>>
    decreases lines.len() - k,
{
    if k < 0 || k >= lines.len() {
        None
    } else if value_for(lines[k], key) is Some {
        value_for(lines[k], key)
    } else {
        first_value(lines, key, k + 1)
    }
}

/// The first value for a key, where it is not empty.
pub open spec fn named_value(text: Seq<char>, key: Seq<char>) -> Option<Seq<char>> {
    match first_value(text_parts::lines_of(text), key, 0) {
        Some(v) => if v.len() == 0 {
            None
        } else {
            Some(v)
        },
        None => None,
    }
}

pub open spec fn unknown_cpu() -> Seq<char> {
    "不明な CPU"@
}

/// The name of the processor by what the system says of it.
pub open spec fn cpu_name(text: Seq<char>) -> Seq<char> {
    if named_value(text, "model name"@) is Some {
        named_value(text, "model name"@)->0
    } else if named_value(text, "Hardware"@) is Some {
        named_value(text, "Hardware"@)->0
    } else if named_value(text, "Processor"@) is Some {
        named_value(text, "Processor"@)->0
    } else {
        unknown_cpu()
    }
}

fn find_value(line: &[char], key: &[char]) -> (r: Option<Vec<char>>)
    ensures
        match r {
            Some(v) => value_for(line@, key@) == Some(v@),
            None => value_for(line@, key@) is None,
        },
{
    let len: usize = line.len();
    match find_char(line, ':') {
        Some(i) => {
            let name = slice_subrange(line, 0, i);
            let value = slice_subrange(line, i + 1, len);
            proof {
                assert(name@ =~= line@.take(i as int));
                assert(value@ =~= line@.skip(i + 1));
            }
            if same_chars(trim_chars(name), key) {
                Some(squash_spaces(trim_chars(value)))
            } else {
                None
            }
        },
        None => None,
    }
}

fn find_named_value(text: &str, lines: &Vec<String>, key: &str) -> (r: Option<String>)
    requires
        text_parts::texts(lines@) == text_parts::lines_of(text@),
    ensures
        match r {
            Some(v) => named_value(text@, key@) == Some(v@),
            None => named_value(text@, key@) is None,
        },
{
    let key_chars = chars_of(key);
    let ghost all = text_parts::lines_of(text@);
    let mut k: usize = 0;
    while k < lines.len()
        invariant
            key_chars@ == key@,
            all == text_parts::lines_of(text@),
            text_parts::texts(lines@) == all,
            k <= lines@.len(),
            first_value(all, key@, 0) == first_value(all, key@, k as int),
        decreases lines@.len() - k,
    {
        let chars = chars_of(lines[k].as_str());
        proof {
            assert(all[k as int] == chars@);
        }
        match find_value(chars.as_slice(), key_chars.as_slice()) {
            Some(v) => {
                if v.len() == 0 {
                    return None;
                }
                return Some(text_of(v.as_slice()));
            },
            None => {},
        }
        k = k + 1;
    }
    None
}

/// The name of the processor of a Linux system, from the file that lists its
/// processors.
pub fn linux_cpu_name(info: Option<&str>) -> (r: String)
    ensures
        r@ == (match info {
            Some(text) => cpu_name(text@),
            None => unknown_cpu(),
        }),
{
    if let Some(text) = info {
        let lines = split_lines(text);
        if let Some(v) = find_named_value(text, &lines, "model name") {
            return v;
        }
        if let Some(v) = find_named_value(text, &lines, "Hardware") {
            return v;
        }
        if let Some(v) = find_named_value(text, &lines, "Processor") {
            return v;
        }
    }
    "不明な CPU".to_owned()
}

/// What a program printed, without the space around it, where that is not
/// empty.
pub fn printed_text(output: &str) -> (r: Option<String>)
    ensures
        match r {
            Some(text) => text@ == text_parts::trimmed(output@) && text@.len() > 0,
            None => text_parts::trimmed(output@).len() == 0,
        },
{
    let text = trim(output);
    if text.as_str().unicode_len() == 0 {
        None
    } else {
        Some(text)
    }
}

/// The words of a text with one space between them, where there are any.
pub open spec fn words_of(text: Option<Seq<char>>) -> Option<Seq<char>> {
    match text {
        Some(t) => if squashed(t).len() == 0 {
            None
        } else {
            Some(squashed(t))
        },
        None => None,
    }
}

pub open spec fn opt_text(s: Option<&str>) -> Option<Seq<char>> {
    match s {
        Some(t) => Some(t@),
        None => None,
    }
}

fn find_words(text: Option<&str>) -> (r: Option<String>)
    ensures
        match r {
            Some(w) => words_of(opt_text(text)) == Some(w@),
            None => words_of(opt_text(text)) is None,
        },
{
    match text {
        Some(t) => {
            let chars = chars_of(t);
            let words = squash_spaces(chars.as_slice());
            if words.len() == 0 {
                None
            } else {
                Some(text_of(words.as_slice()))
            }
        },
        None => None,
    }
}

/// The text with the marks for trade names written out.
pub open spec fn marks_written_out(s: Seq<char>) -> Seq<char>
    decreases s.len(),
{
    if s.len() == 0 {
        Seq::empty()
    } else {
        let front = marks_written_out(s.drop_last());
        if s.last() == '™' {
            front + "(TM)"@
        } else if s.last() == '®' {
            front + "(R)"@
        } else {
            front.push(s.last())
        }
    }
}

/// The name of a Windows system, from what it prints about itself.
pub fn windows_os_name(printed: Option<&str>, arch: &str) -> (r: String)
    ensures
        r@ == (match printed {
            Some(text) => marks_written_out(squashed(text@)),
            None => "Windows "@ + arch@,
        }),
{
    let text = match printed {
        Some(text) => text,
        None => {
            return join("Windows ", arch);
        },
    };
    let chars = chars_of(text);
    let words = squash_spaces(chars.as_slice());
    let mut r = String::new();
    let mut i: usize = 0;
    proof {
        assert(words@.take(0) =~= Seq::<char>::empty());
        assert(r@ =~= Seq::<char>::empty());
    }
    while i < words.len()
        invariant
            i <= words@.len(),
            r@ == marks_written_out(words@.take(i as int)),
        decreases words@.len() - i,
    {
        proof {
            let taken = words@.take(i + 1);
            assert(taken.drop_last() =~= words@.take(i as int));
            assert(taken.last() == words@[i as int]);
        }
        if words[i] == '™' {
            r.append("(TM)");
        } else if words[i] == '®' {
            r.append("(R)");
        } else {
            r.push(words[i]);
        }
        i = i + 1;
    }
    proof {
        assert(words@.take(i as int) =~= words@);
    }
    r
}

/// The name of the processor of a Windows system.
pub fn windows_cpu_name(printed: Option<&str>) -> (r: String)
    ensures
        r@ == (match words_of(opt_text(printed)) {
            Some(name) => name,
            None => unknown_cpu(),
        }),
{
    match find_words(printed) {
        Some(name) => name,
        None => "不明な CPU".to_owned(),
    }
}

/// The name of a macOS system, from what it prints about itself.
pub fn macos_os_name(
    product: Option<&str>,
    version: Option<&str>,
    build: Option<&str>,
    arch: &str,
) -> (r: String)
    ensures
        r@ == (match product {
            Some(p) => p@,
            None => "macOS"@,
        }) + (match version {
            Some(v) => if v@.len() == 0 {
                Seq::empty()
            } else {
                " "@ + v@
            },
            None => Seq::empty(),
        }) + (match build {
            Some(b) => if b@.len() == 0 {
                Seq::empty()
            } else {
                " ("@ + b@ + ")"@
            },
            None => Seq::empty(),
        }) + " "@ + arch@,
{
    let mut r = match product {
        Some(p) => p.to_owned(),
        None => "macOS".to_owned(),
    };
    let ghost first = r@;
    if let Some(v) = version {
        if v.unicode_len() > 0 {
            r.append(" ");
            r.append(v);
        }
    }
    let ghost second = match version {
        Some(v) => if v@.len() == 0 {
            Seq::empty()
        } else {
            " "@ + v@
        },
        None => Seq::<char>::empty(),
    };
    proof {
        assert(r@ =~= first + second);
    }
    if let Some(b) = build {
        if b.unicode_len() > 0 {
            r.append(" (");
            r.append(b);
            r.append(")");
        }
    }
    let ghost third = match build {
        Some(b) => if b@.len() == 0 {
            Seq::empty()
        } else {
            " ("@ + b@ + ")"@
        },
        None => Seq::<char>::empty(),
    };
    proof {
        assert(r@ =~= first + second + third);
    }
    r.append(" ");
    r.append(arch);
    r
}

/// The value that a line gives behind a key at its front, where it is not
/// empty.
pub open spec fn profiled(line: Seq<char>, key: Seq<char>) -> Option<Seq<char>> {
    let t = text_parts::trimmed(line);
    if key.is_prefix_of(t) {
        words_of(Some(text_parts::trimmed(t.skip(key.len() as int))))
    } else {
        None
    }
}

/// The first chip or processor that the lines from `k` on name.
pub open spec fn first_profiled(lines: Seq<Seq<char>>, k: int) -> Option<Seq<char>>
    decreases lines.len() - k,
{
    if k < 0 || k >= lines.len() {
        None
    } else if profiled(lines[k], "Chip:"@) is Some {
        profiled(lines[k], "Chip:"@)
    } else if profiled(lines[k], "Processor Name:"@) is Some {
        profiled(lines[k], "Processor Name:"@)
    } else {
        first_profiled(lines, k + 1)
    }
}

fn find_profiled(line: &[char], key: &str) -> (r: Option<String>)
    ensures
        match r {
            Some(v) => profiled(line@, key@) == Some(v@),
            None => profiled(line@, key@) is None,
        },
{
    let t = trim_chars(line);
    let key_chars = chars_of(key);
    if !starts_with(t, key_chars.as_slice()) {
        return None;
    }
    let n: usize = key_chars.len();
    let len: usize = t.len();
    let behind = slice_subrange(t, n, len);
    proof {
        assert(behind@ =~= t@.skip(n as int));
    }
    let words = squash_spaces(trim_chars(behind));
    if words.len() == 0 {
        None
    } else {
        Some(text_of(words.as_slice()))
    }
}

/// The name of the processor of a macOS system: what the kernel calls it, the
/// first that the report on the hardware names, or the model of the machine.
pub fn macos_cpu_name(brand: Option<&str>, report: Option<&str>, model: Option<&str>) -> (r: String)
    ensures
        r@ == (match words_of(opt_text(brand)) {
            Some(name) => name,
            None => match (match report {
                Some(text) => first_profiled(text_parts::lines_of(text@), 0),
                None => None,
            }) {
                Some(name) => name,
                None => match words_of(opt_text(model)) {
                    Some(name) => name,
                    None => unknown_cpu(),
                },
            },
        }),
{
    if let Some(name) = find_words(brand) {
        return name;
    }
    if let Some(text) = report {
        let lines = split_lines(text);
        let ghost all = text_parts::lines_of(text@);
        let mut k: usize = 0;
        while k < lines.len()
            invariant
                report == Some(text),
                words_of(opt_text(brand)) is None,
                all == text_parts::lines_of(text@),
                text_parts::texts(lines@) == all,
                k <= lines@.len(),
                first_profiled(all, 0) == first_profiled(all, k as int),
            decreases lines@.len() - k,
        {
            let chars = chars_of(lines[k].as_str());
            proof {
                assert(all[k as int] == chars@);
            }
            if let Some(name) = find_profiled(chars.as_slice(), "Chip:") {
                return name;
            }
            if let Some(name) = find_profiled(chars.as_slice(), "Processor Name:") {
                return name;
            }
            k = k + 1;
        }
    }
    match find_words(model) {
        Some(name) => name,
        None => "不明な CPU".to_owned(),
    }
}

/// The value of a line that names the processor under one of three keys.
pub open spec fn any_value(line: Seq<char>) -> Option<Seq<char>> {
    if value_for(line, "model name"@) is Some {
        value_for(line, "model name"@)
    } else if value_for(line, "Hardware"@) is Some {
        value_for(line, "Hardware"@)
    } else {
        value_for(line, "Processor"@)
    }
}

/// The first value under one of the three keys, from line `k` on.
pub open spec fn first_any_value(lines: Seq<Seq<char>>, k: int) -> Option<Seq<char>>
    decreases lines.len() - k,
{
    if k < 0 || k >= lines.len() {
        None
    } else if any_value(lines[k]) is Some {
        any_value(lines[k])
    } else {
        first_any_value(lines, k + 1)
    }
}

/// The name of the processor of an Android system: the first that its list of
/// processors names, or else the kind of machine.
pub fn android_cpu_name(info: Option<&str>, arch: &str) -> (r: String)
    ensures
        r@ == (match info {
            Some(text) => match first_any_value(text_parts::lines_of(text@), 0) {
                Some(name) => if name.len() == 0 {
                    arch@
                } else {
                    name
                },
                None => arch@,
            },
            None => arch@,
        }),
{
    if let Some(text) = info {
        let lines = split_lines(text);
        let ghost all = text_parts::lines_of(text@);
        let model = chars_of("model name");
        let hardware = chars_of("Hardware");
        let processor = chars_of("Processor");
        let mut k: usize = 0;
        while k < lines.len()
            invariant
                info == Some(text),
                all == text_parts::lines_of(text@),
                text_parts::texts(lines@) == all,
                model@ == "model name"@,
                hardware@ == "Hardware"@,
                processor@ == "Processor"@,
                k <= lines@.len(),
                first_any_value(all, 0) == first_any_value(all, k as int),
            decreases lines@.len() - k,
        {
            let chars = chars_of(lines[k].as_str());
            proof {
                assert(all[k as int] == chars@);
            }
            let mut value = find_value(chars.as_slice(), model.as_slice());
            if value.is_none() {
                value = find_value(chars.as_slice(), hardware.as_slice());
            }
            if value.is_none() {
                value = find_value(chars.as_slice(), processor.as_slice());
            }
            if let Some(name) = value {
                if name.len() == 0 {
                    return arch.to_owned();
                }
                return text_of(name.as_slice());
            }
            k = k + 1;
        }
    }
    arch.to_owned()
}

proof fn lemma_run(front: Seq<char>, rest: Seq<char>, space: bool)
    requires
        forall|i: int| 0 <= i < front.len() ==> text_parts::is_space(#[trigger] front[i]) == space,
        rest.len() > 0 ==> text_parts::is_space(rest[0]) != space,
    ensures
        run_len(front + rest, space) == front.len(),
    decreases front.len(),
{
    if front.len() == 0 {
        assert(front + rest =~= rest);
    } else {
        assert((front + rest).drop_first() =~= front.drop_first() + rest);
        assert((front + rest)[0] == front[0]);
        lemma_run(front.drop_first(), rest, space);
    }
}

/// Of a text the words are kept, with one blank between any two of them and none around them.
pub proof fn words_are_kept_one_blank_apart(blanks: Seq<char>, word: Seq<char>, rest: Seq<char>)
    requires
        forall|i: int| 0 <= i < blanks.len() ==> text_parts::is_space(#[trigger] blanks[i]),
        forall|i: int| 0 <= i < word.len() ==> !text_parts::is_space(#[trigger] word[i]),
        word.len() > 0,
        rest.len() > 0 ==> text_parts::is_space(rest[0]),
    ensures
        squashed(blanks).len() == 0,
        squashed(rest).len() == 0 ==> squashed(blanks + word + rest) == word,
        squashed(rest).len() > 0 ==> squashed(blanks + word + rest) == word + seq![' '] + squashed(
            rest,
        ),
{
    let s = blanks + word + rest;
    assert(s =~= blanks + (word + rest));
    assert((word + rest)[0] == word[0]);
    lemma_run(blanks, word + rest, true);
    assert(s.skip(blanks.len() as int) =~= word + rest);
    lemma_run(word, rest, false);
    assert((word + rest).skip(word.len() as int) =~= rest);
    assert((word + rest).take(word.len() as int) =~= word);
    assert(word.push(' ') =~= word + seq![' ']);
    lemma_run(blanks, Seq::empty(), true);
    assert(blanks + Seq::<char>::empty() =~= blanks);
    assert(blanks.skip(blanks.len() as int) =~= Seq::<char>::empty());
}

/// A line gives what stands behind its first colon, to the key that stands before it.
pub proof fn lines_give_what_stands_behind_their_colon(
    before: Seq<char>,
    behind: Seq<char>,
    key: Seq<char>,
)
    requires
        !before.contains(':'),
    ensures
        text_parts::trimmed(before) == key ==> value_for(before + seq![':'] + behind, key) == Some(
            squashed(text_parts::trimmed(behind)),
        ),
        text_parts::trimmed(before) != key ==> value_for(before + seq![':'] + behind, key) is None,
        value_for(before, key) is None,
{
    let line = before + seq![':'] + behind;
    let k: int = before.len() as int;
    assert forall|j: int| 0 <= j < k implies line[j] != ':' by {
        assert(line[j] == before[j]);
        if before[j] == ':' {
            assert(before.contains(before[j]));
        }
    }
    text_parts::lemma_first(line, ':', k);
    assert(line.take(k) =~= before);
    assert(line.skip(k + 1) =~= behind);
}

/// The first line that has the key gives the value.
pub proof fn the_first_line_with_the_key_counts(lines: Seq<Seq<char>>, key: Seq<char>, from: int, i: int)
    requires
        0 <= from <= i < lines.len(),
        value_for(lines[i], key) is Some,
        forall|j: int| from <= j < i ==> value_for(#[trigger] lines[j], key) is None,
    ensures
        first_value(lines, key, from) == value_for(lines[i], key),
    decreases i - from,
{
    if from < i {
        assert(value_for(lines[from], key) is None);
        the_first_line_with_the_key_counts(lines, key, from + 1, i);
    }
}

} // verus!
