//! Descriptors of images that are drawn from several files:
//! `base(x,y,cut,blend=n)|overlay(x,y,cut,blend=n)|...`.

use vstd::prelude::*;
use vstd::slice::slice_subrange;
use crate::number_text;
use crate::number_text::parse_i64_chars;
use crate::text::{chars_of, text_of};
use crate::text_parts;
use crate::text_parts::{find_char, split, starts_with};

verus! {

/// One file of a composed image.
#[derive(Debug)]
pub struct G00ComposePart {
    pub file_name: String,
    pub x: i32,
    pub y: i32,
    pub cut_no: i32,
    pub blend_type: i32,
}

/// What a part says.
#[verifier::ext_equal]
pub struct PartView {
    pub file_name: Seq<char>,
    pub x: int,
    pub y: int,
    pub cut_no: int,
    pub blend_type: int,
}

impl G00ComposePart {
    pub open spec fn view(&self) -> PartView {
        PartView {
            file_name: self.file_name@,
            x: self.x as int,
            y: self.y as int,
            cut_no: self.cut_no as int,
            blend_type: self.blend_type as int,
        }
    }
}

/// Why a descriptor cannot be read.
#[derive(Debug, Clone, Copy, PartialEq, Eq, Structural)]
pub enum DescriptorError {
    /// It has no `|`.
    NotComposed,
    /// A `(` has no `)`.
    Unterminated,
    /// Parameters without `x` and `y`.
    MissingCoordinates,
    InvalidX,
    InvalidY,
    InvalidBlend,
    InvalidCut,
    /// Something stands between a `)` and the next `|`.
    UnexpectedCharacter,
    /// A part behind the first has no file name.
    MissingFileName(usize),
}

pub open spec fn part_views(parts: Seq<G00ComposePart>) -> Seq<PartView> {
    parts.map_values(|p: G00ComposePart| p@)
}

/// The characters that are no space.
pub open spec fn without_spaces(s: Seq<char>) -> Seq<char>
    decreases s.len(),
{
    if s.len() == 0 {
        Seq::empty()
    } else {
        let before = without_spaces(s.drop_last());
        if s.last() == ' ' {
            before
        } else {
            before.push(s.last())
        }
    }
}

fn compact_chars(s: &[char]) -> (r: Vec<char>)
    ensures
        r@ == without_spaces(s@),
{
    let mut r: Vec<char> = Vec::new();
    let mut i: usize = 0;
    proof {
        assert(s@.take(0) =~= Seq::<char>::empty());
    }
    while i < s.len()
        invariant
            i <= s@.len(),
            r@ == without_spaces(s@.take(i as int)),
        decreases s@.len() - i,
    {
        proof {
            let taken = s@.take(i + 1);
            assert(taken.drop_last() =~= s@.take(i as int));
            assert(taken.last() == s@[i as int]);
        }
        if s[i] != ' ' {
            r.push(s[i]);
        }
        i = i + 1;
    }
    proof {
        assert(s@.take(i as int) =~= s@);
    }
    r
}

/// The descriptor as it is cached: without spaces.
pub fn normalized_g00_composite_descriptor(raw: &str) -> (r: String)
    ensures
        r@ == without_spaces(raw@),
{
    let chars = chars_of(raw);
    text_of(compact_chars(chars.as_slice()).as_slice())
}

/// Where a file name ends: at the first `(` or `|`.
pub open spec fn name_end(s: Seq<char>) -> int
    decreases s.len(),
{
    if s.len() == 0 || s[0] == '(' || s[0] == '|' {
        0
    } else {
        1 + name_end(s.drop_first())
    }
}

fn find_name_end(s: &[char]) -> (n: usize)
    ensures
        n == name_end(s@),
        n <= s@.len(),
{
    let mut n: usize = 0;
    proof {
        assert(s@.skip(0) =~= s@);
    }
    while n < s.len() && s[n] != '(' && s[n] != '|'
        invariant
            n <= s@.len(),
            name_end(s@) == n + name_end(s@.skip(n as int)),
        decreases s@.len() - n,
    {
        proof {
            assert(s@.skip(n as int).drop_first() =~= s@.skip(n + 1));
        }
        n = n + 1;
    }
    n
}

pub open spec fn number(s: Seq<char>) -> Option<int> {
    number_text::number_within(s, i32::MIN as int, i32::MAX as int)
}

fn parse_i32(s: &[char]) -> (r: Option<i32>)
    ensures
        match r {
            Some(v) => number(s@) == Some(v as int),
            None => number(s@) is None,
        },
{
    match parse_i64_chars(s) {
        Some(v) => if v >= i32::MIN as i64 && v <= i32::MAX as i64 {
            Some(v as i32)
        } else {
            None
        },
        None => None,
    }
}

/// The part with the parameters behind `x` and `y`: each is a cut, or a blend
/// with `blend=` before it, and the last of each kind counts.
pub open spec fn with_options(part: PartView, options: Seq<Seq<char>>) -> Result<
    PartView,
    DescriptorError,
>
    decreases options.len(),
{
    if options.len() == 0 {
        Ok(part)
    } else {
        let option = options[0];
        if "blend="@.is_prefix_of(option) {
            match number(option.skip(6)) {
                Some(v) => with_options(
                    PartView { blend_type: v, ..part },
                    options.drop_first(),
                ),
                None => Err(DescriptorError::InvalidBlend),
            }
        } else {
            match number(option) {
                Some(v) => with_options(PartView { cut_no: v, ..part }, options.drop_first()),
                None => Err(DescriptorError::InvalidCut),
            }
        }
    }
}

/// The part with its parameters.
pub open spec fn with_params(name: Seq<char>, params: Seq<Seq<char>>) -> Result<
    PartView,
    DescriptorError,
> {
    if params.len() < 2 {
        Err(DescriptorError::MissingCoordinates)
    } else {
        match number(params[0]) {
            None => Err(DescriptorError::InvalidX),
            Some(x) => match number(params[1]) {
                None => Err(DescriptorError::InvalidY),
                Some(y) => with_options(
                    PartView { file_name: name, x, y, cut_no: 0, blend_type: 0 },
                    params.skip(2),
                ),
            },
        }
    }
}

pub open spec fn bare_part(name: Seq<char>) -> PartView {
    PartView { file_name: name, x: 0, y: 0, cut_no: 0, blend_type: 0 }
}

/// The first part of `s` and how many characters it takes.
pub open spec fn first_part(s: Seq<char>) -> Result<(PartView, int), DescriptorError> {
    let n = name_end(s);
    let name = s.take(n);
    if n < s.len() && s[n] == '(' {
        let inside = s.skip(n + 1);
        match text_parts::first_of(inside, ')') {
            None => Err(DescriptorError::Unterminated),
            Some(k) => match with_params(name, text_parts::split_on(inside.take(k), ',')) {
                Ok(part) => Ok((part, n + 1 + k + 1)),
                Err(e) => Err(e),
            },
        }
    } else {
        Ok((bare_part(name), n))
    }
}

/// The parts of `s`, with `|` between them. A `|` at the end begins an empty
/// part.
pub open spec fn parts_of(s: Seq<char>) -> Result<Seq<PartView>, DescriptorError>
    decreases s.len(),
{
    match first_part(s) {
        Err(e) => Err(e),
        Ok((part, n)) => if n >= s.len() {
            Ok(seq![part])
        } else if n < 0 || s[n] != '|' {
            Err(DescriptorError::UnexpectedCharacter)
        } else if n + 1 == s.len() {
            Ok(seq![part, bare_part(Seq::empty())])
        } else {
            match parts_of(s.skip(n + 1)) {
                Err(e) => Err(e),
                Ok(rest) => Ok(seq![part] + rest),
            }
        },
    }
}

/// The first part behind the first one that has no file name.
pub open spec fn nameless(parts: Seq<PartView>, i: int) -> bool {
    &&& 1 <= i < parts.len()
    &&& parts[i].file_name.len() == 0
    &&& forall|k: int| 1 <= k < i ==> (#[trigger] parts[k]).file_name.len() > 0
}

/// What a descriptor says. Only the first part may go without a file name.
pub open spec fn describes(
    raw: Seq<char>,
    r: Result<Seq<PartView>, DescriptorError>,
) -> bool {
    if !raw.contains('|') {
        r == Err::<Seq<PartView>, DescriptorError>(DescriptorError::NotComposed)
    } else {
        match parts_of(without_spaces(raw)) {
            Err(e) => r == Err::<Seq<PartView>, DescriptorError>(e),
            Ok(parts) => match r {
                Ok(found) => found == parts && forall|k: int|
                    1 <= k < parts.len() ==> (#[trigger] parts[k]).file_name.len() > 0,
                Err(DescriptorError::MissingFileName(i)) => nameless(parts, i as int),
                Err(_) => false,
            },
        }
    }
}

fn read_options(part: G00ComposePart, params: &Vec<Vec<char>>) -> (r: Result<
    G00ComposePart,
    DescriptorError,
>)
    requires
        params@.len() >= 2,
    ensures
        match r {
            Ok(p) => with_options(part@, text_parts::views(params@).skip(2)) == Ok::<
                PartView,
                DescriptorError,
            >(p@),
            Err(e) => with_options(part@, text_parts::views(params@).skip(2)) == Err::<
                PartView,
                DescriptorError,
            >(e),
        },
{
    let ghost all = text_parts::views(params@);
    let ghost first = part@;
    let mut current = part;
    let prefix: [char; 6] = ['b', 'l', 'e', 'n', 'd', '='];
    proof {
        reveal_strlit("blend=");
        assert(prefix@ =~= "blend="@);
    }
    let mut i: usize = 2;
    while i < params.len()
        invariant
            all == text_parts::views(params@),
            2 <= i <= params@.len(),
            prefix@ == "blend="@,
            "blend="@.len() == 6,
            first == part@,
            with_options(first, all.skip(2)) == with_options(current@, all.skip(i as int)),
        decreases params@.len() - i,
    {
        let option = params[i].as_slice();
        proof {
            assert(all.skip(i as int)[0] == option@);
            assert(all.skip(i as int).drop_first() =~= all.skip(i + 1));
        }
        if starts_with(option, prefix.as_slice()) {
            let tail = slice_subrange(option, 6, option.len());
            proof {
                assert(tail@ =~= option@.skip(6));
            }
            match parse_i32(tail) {
                Some(v) => {
                    current.blend_type = v;
                },
                None => {
                    return Err(DescriptorError::InvalidBlend);
                },
            }
        } else {
            match parse_i32(option) {
                Some(v) => {
                    current.cut_no = v;
                },
                None => {
                    return Err(DescriptorError::InvalidCut);
                },
            }
        }
        i = i + 1;
    }
    Ok(current)
}

fn read_params(name: &[char], params: &Vec<Vec<char>>) -> (r: Result<
    G00ComposePart,
    DescriptorError,
>)
    ensures
        match r {
            Ok(p) => with_params(name@, text_parts::views(params@)) == Ok::<
                PartView,
                DescriptorError,
            >(p@),
            Err(e) => with_params(name@, text_parts::views(params@)) == Err::<
                PartView,
                DescriptorError,
            >(e),
        },
{
    if params.len() < 2 {
        return Err(DescriptorError::MissingCoordinates);
    }
    let x: i32 = match parse_i32(params[0].as_slice()) {
        Some(v) => v,
        None => {
            return Err(DescriptorError::InvalidX);
        },
    };
    let y: i32 = match parse_i32(params[1].as_slice()) {
        Some(v) => v,
        None => {
            return Err(DescriptorError::InvalidY);
        },
    };
    read_options(
        G00ComposePart { file_name: text_of(name), x, y, cut_no: 0, blend_type: 0 },
        params,
    )
}

fn read_part(s: &[char]) -> (r: Result<(G00ComposePart, usize), DescriptorError>)
    ensures
        match r {
            Ok((p, n)) => first_part(s@) == Ok::<(PartView, int), DescriptorError>((p@, n as int))
                && n <= s@.len(),
            Err(e) => first_part(s@) == Err::<(PartView, int), DescriptorError>(e),
        },
{
    let n: usize = find_name_end(s);
    let len: usize = s.len();
    let name = slice_subrange(s, 0, n);
    proof {
        assert(name@ =~= s@.take(n as int));
    }
    if n < len && s[n] == '(' {
        let inside = slice_subrange(s, n + 1, len);
        proof {
            assert(inside@ =~= s@.skip(n + 1));
        }
        match find_char(inside, ')') {
            None => Err(DescriptorError::Unterminated),
            Some(k) => {
                let body = slice_subrange(inside, 0, k);
                proof {
                    assert(body@ =~= inside@.take(k as int));
                }
                let params = split(body, ',');
                match read_params(name, &params) {
                    Ok(part) => Ok((part, n + 1 + k + 1)),
                    Err(e) => Err(e),
                }
            },
        }
    } else {
        Ok((G00ComposePart { file_name: text_of(name), x: 0, y: 0, cut_no: 0, blend_type: 0 }, n))
    }
}

fn read_parts(s: &[char]) -> (r: Result<Vec<G00ComposePart>, DescriptorError>)
    ensures
        match r {
            Ok(parts) => parts_of(s@) == Ok::<Seq<PartView>, DescriptorError>(part_views(parts@)),
            Err(e) => parts_of(s@) == Err::<Seq<PartView>, DescriptorError>(e),
        },
{
    let mut parts: Vec<G00ComposePart> = Vec::new();
    let mut rest: &[char] = s;
    proof {
        assert(part_views(parts@) =~= Seq::<PartView>::empty());
        if let Ok(tail) = parts_of(s@) {
            assert(Seq::<PartView>::empty() + tail =~= tail);
        }
    }
    loop
        invariant
            match parts_of(rest@) {
                Ok(tail) => parts_of(s@) == Ok::<Seq<PartView>, DescriptorError>(
                    part_views(parts@) + tail,
                ),
                Err(e) => parts_of(s@) == Err::<Seq<PartView>, DescriptorError>(e),
            },
        decreases rest@.len(),
    {
        let (part, n) = match read_part(rest) {
            Ok(found) => found,
            Err(e) => {
                return Err(e);
            },
        };
        let ghost before = part_views(parts@);
        let ghost view = part@;
        let len: usize = rest.len();
        parts.push(part);
        proof {
            assert(part_views(parts@) =~= before.push(view));
        }
        if n == len {
            proof {
                assert(part_views(parts@) =~= before + seq![view]);
            }
            return Ok(parts);
        }
        if rest[n] != '|' {
            return Err(DescriptorError::UnexpectedCharacter);
        }
        if n + 1 == len {
            parts.push(
                G00ComposePart {
                    file_name: String::new(),
                    x: 0,
                    y: 0,
                    cut_no: 0,
                    blend_type: 0,
                },
            );
            proof {
                assert(part_views(parts@) =~= before + seq![view, bare_part(Seq::empty())]);
            }
            return Ok(parts);
        }
        let tail = slice_subrange(rest, n + 1, len);
        proof {
            assert(tail@ =~= rest@.skip(n + 1));
            if let Ok(more) = parts_of(tail@) {
                assert(before + (seq![view] + more) =~= part_views(parts@) + more);
            }
        }
        rest = tail;
    }
}

/// Reads a descriptor.
pub fn parse_g00_composite_descriptor(raw: &str) -> (r: Result<
    Vec<G00ComposePart>,
    DescriptorError,
>)
    ensures
        describes(
            raw@,
            match r {
                Ok(parts) => Ok(part_views(parts@)),
                Err(e) => Err(e),
            },
        ),
{
    let chars = chars_of(raw);
    if find_char(chars.as_slice(), '|').is_none() {
        return Err(DescriptorError::NotComposed);
    }
    let compact = compact_chars(chars.as_slice());
    let parts = match read_parts(compact.as_slice()) {
        Ok(parts) => parts,
        Err(e) => {
            return Err(e);
        },
    };
    let mut i: usize = 1;
    while i < parts.len()
        invariant
            1 <= i,
            raw@.contains('|'),
            parts_of(without_spaces(raw@)) == Ok::<Seq<PartView>, DescriptorError>(
                part_views(parts@),
            ),
            forall|k: int|
                1 <= k < i && k < parts@.len() ==> (#[trigger] part_views(
                    parts@,
                )[k]).file_name.len() > 0,
        decreases parts@.len() - i,
    {
        if parts[i].file_name.as_str().unicode_len() == 0 {
            proof {
                assert(part_views(parts@)[i as int].file_name.len() == 0);
                assert(nameless(part_views(parts@), i as int));
            }
            return Err(DescriptorError::MissingFileName(i));
        }
        i = i + 1;
    }
    Ok(parts)
}

/// The file names of the parts that have one.
pub open spec fn names_of(parts: Seq<PartView>) -> Seq<Seq<char>>
    decreases parts.len(),
{
    if parts.len() == 0 {
        Seq::empty()
    } else {
        let before = names_of(parts.drop_last());
        if parts.last().file_name.len() == 0 {
            before
        } else {
            before.push(parts.last().file_name)
        }
    }
}

/// The files that a descriptor names, where it can be read.
pub fn g00_composite_component_names(raw: &str) -> (r: Option<Vec<String>>)
    ensures
        match r {
            Some(names) => exists|parts: Seq<PartView>|
                describes(raw@, Ok(parts)) && names@.map_values(|s: String| s@) == #[trigger]
                    names_of(parts),
            None => exists|e: DescriptorError| describes(raw@, Err(e)),
        },
{
    let parts = match parse_g00_composite_descriptor(raw) {
        Ok(parts) => parts,
        Err(e) => {
            proof {
                assert(describes(raw@, Err(e)));
            }
            return None;
        },
    };
    let ghost all = part_views(parts@);
    let mut names: Vec<String> = Vec::new();
    let mut i: usize = 0;
    proof {
        assert(all.take(0) =~= Seq::<PartView>::empty());
        assert(names@.map_values(|s: String| s@) =~= Seq::<Seq<char>>::empty());
    }
    while i < parts.len()
        invariant
            all == part_views(parts@),
            i <= parts@.len(),
            names@.map_values(|s: String| s@) == names_of(all.take(i as int)),
        decreases parts@.len() - i,
    {
        proof {
            let taken = all.take(i + 1);
            assert(taken.drop_last() =~= all.take(i as int));
            assert(taken.last() == parts@[i as int]@);
        }
        if parts[i].file_name.as_str().unicode_len() > 0 {
            let ghost before = names@;
            names.push(parts[i].file_name.clone());
            proof {
                assert(names@.map_values(|s: String| s@) =~= before.map_values(
                    |s: String| s@,
                ).push(parts@[i as int].file_name@));
            }
        }
        i = i + 1;
    }
    proof {
        assert(all.take(i as int) =~= all);
        assert(describes(raw@, Ok(all)));
    }
    Some(names)
}

/// Spaces do not count in a descriptor.
pub proof fn spaces_do_not_count(s: Seq<char>)
    ensures
        without_spaces(without_spaces(s)) == without_spaces(s),
        without_spaces(s).contains('|') == s.contains('|'),
    decreases s.len(),
{
    if s.len() > 0 {
        let before = s.drop_last();
        spaces_do_not_count(before);
        let w = without_spaces(s);
        if s.last() == ' ' {
            if s.contains('|') {
                let i = choose|i: int| 0 <= i < s.len() && s[i] == '|';
                assert(before[i] == '|');
            }
            if before.contains('|') {
                let i = choose|i: int| 0 <= i < before.len() && before[i] == '|';
                assert(s[i] == '|');
            }
        } else {
            assert(w.drop_last() =~= without_spaces(before));
            if s.contains('|') {
                let i = choose|i: int| 0 <= i < s.len() && s[i] == '|';
                if i < before.len() {
                    assert(before[i] == '|');
                    let k = choose|k: int|
                        0 <= k < without_spaces(before).len() && without_spaces(before)[k] == '|';
                    assert(w[k] == '|');
                } else {
                    assert(w[w.len() - 1] == '|');
                }
            }
            if w.contains('|') {
                let k = choose|k: int| 0 <= k < w.len() && w[k] == '|';
                if k < w.len() - 1 {
                    assert(without_spaces(before)[k] == '|');
                    let i = choose|i: int| 0 <= i < before.len() && before[i] == '|';
                    assert(s[i] == '|');
                } else {
                    assert(s[s.len() - 1] == '|');
                }
            }
        }
    }
}

proof fn lemma_no_sign(a: Seq<char>, c: char)
    requires
        !a.contains(c),
    ensures
        text_parts::split_on(a, c) == seq![a],
        text_parts::first_of(a, c) is None,
{
    if text_parts::first_of(a, c) is Some {
        let i = choose|i: int| text_parts::first_at(a, c, i);
        assert(a[i] == c);
    }
}

proof fn lemma_split(a: Seq<char>, c: char, rest: Seq<char>)
    requires
        !a.contains(c),
    ensures
        text_parts::split_on(a.push(c) + rest, c) == seq![a] + text_parts::split_on(rest, c),
        text_parts::first_of(a.push(c) + rest, c) == Some(a.len() as int),
{
    let s = a.push(c) + rest;
    let n = a.len() as int;
    assert forall|j: int| 0 <= j < n implies s[j] != c by {
        assert(a.contains(a[j]));
    }
    assert(text_parts::first_at(s, c, n));
    text_parts::lemma_first(s, c, n);
    assert(s.take(n) =~= a);
    assert(s.skip(n + 1) =~= rest);
}

proof fn lemma_decimal(v: int, c: char)
    requires
        c != '-',
        !number_text::is_digit(c),
    ensures
        !number_text::decimal(v).contains(c),
        number_text::decimal(v).len() > 0,
{
    let n = if v < 0 {
        (-v) as nat
    } else {
        v as nat
    };
    number_text::lemma_digits(n);
    let d = number_text::digits_of(n);
    let s = number_text::decimal(v);
    if s.contains(c) {
        let i = choose|i: int| 0 <= i < s.len() && s[i] == c;
        if v < 0 {
            if i > 0 {
                assert(number_text::is_digit(d[i - 1]));
            }
        } else {
            assert(number_text::is_digit(d[i]));
        }
    }
}

/// The text of a part with its numbers.
pub open spec fn written(part: PartView) -> Seq<char> {
    part.file_name.push('(') + (number_text::decimal(part.x).push(',') + (number_text::decimal(
        part.y,
    ).push(',') + (number_text::decimal(part.cut_no).push(',') + ("blend="@
        + number_text::decimal(part.blend_type))))).push(')')
}

/// The text of a part's numbers.
spec fn written_params(part: PartView) -> Seq<char> {
    number_text::decimal(part.x).push(',') + (number_text::decimal(part.y).push(',') + (
    number_text::decimal(part.cut_no).push(',') + ("blend="@ + number_text::decimal(
        part.blend_type,
    ))))
}

proof fn lemma_joined(a: Seq<char>, b: Seq<char>, c: char)
    requires
        !a.contains(c),
        !b.contains(c),
    ensures
        !(a + b).contains(c),
{
    if (a + b).contains(c) {
        let i = choose|i: int| 0 <= i < (a + b).len() && (a + b)[i] == c;
        if i < a.len() {
            assert(a[i] == c);
        } else {
            assert(b[i - a.len()] == c);
        }
    }
}

proof fn lemma_params_plain(part: PartView)
    ensures
        !written_params(part).contains(')'),
        !("blend="@ + number_text::decimal(part.blend_type)).contains(','),
{
    reveal_strlit("blend=");
    lemma_decimal(part.x, ')');
    lemma_decimal(part.y, ')');
    lemma_decimal(part.cut_no, ')');
    lemma_decimal(part.blend_type, ')');
    lemma_decimal(part.blend_type, ',');
    let comma = seq![','];
    assert(!comma.contains(')'));
    let word = "blend="@;
    assert(!word.contains(')') && !word.contains(','));
    let dx = number_text::decimal(part.x);
    let dy = number_text::decimal(part.y);
    let dc = number_text::decimal(part.cut_no);
    let db = number_text::decimal(part.blend_type);
    assert(dx.push(',') =~= dx + comma && dy.push(',') =~= dy + comma && dc.push(',') =~= dc
        + comma);
    lemma_joined(word, db, ')');
    lemma_joined(word, db, ',');
    lemma_joined(dc, comma, ')');
    lemma_joined(dc.push(','), word + db, ')');
    lemma_joined(dy, comma, ')');
    lemma_joined(dy.push(','), dc.push(',') + (word + db), ')');
    lemma_joined(dx, comma, ')');
    lemma_joined(dx.push(','), dy.push(',') + (dc.push(',') + (word + db)), ')');
}

proof fn lemma_params(part: PartView)
    requires
        i32::MIN <= part.x <= i32::MAX,
        i32::MIN <= part.y <= i32::MAX,
        i32::MIN <= part.cut_no <= i32::MAX,
        i32::MIN <= part.blend_type <= i32::MAX,
    ensures
        with_params(part.file_name, text_parts::split_on(written_params(part), ',')) == Ok::<
            PartView,
            DescriptorError,
        >(part),
{
    let dx = number_text::decimal(part.x);
    let dy = number_text::decimal(part.y);
    let dc = number_text::decimal(part.cut_no);
    let db = number_text::decimal(part.blend_type);
    let option = "blend="@ + db;
    lemma_params_plain(part);
    lemma_decimal(part.x, ',');
    lemma_decimal(part.y, ',');
    lemma_decimal(part.cut_no, ',');
    lemma_split(dx, ',', dy.push(',') + (dc.push(',') + option));
    lemma_split(dy, ',', dc.push(',') + option);
    lemma_split(dc, ',', option);
    lemma_no_sign(option, ',');
    let all = text_parts::split_on(written_params(part), ',');
    assert(all =~= seq![dx, dy, dc, option]);
    number_text::number_round_trip(part.x);
    number_text::number_round_trip(part.y);
    number_text::number_round_trip(part.cut_no);
    number_text::number_round_trip(part.blend_type);
    reveal_strlit("blend=");
    assert(!"blend="@.is_prefix_of(dc)) by {
        if "blend="@.is_prefix_of(dc) {
            assert(dc[0] == 'b');
            assert(dc.contains('b'));
            lemma_decimal(part.cut_no, 'b');
        }
    }
    assert("blend="@.is_prefix_of(option));
    assert(option.skip(6) =~= db);
    let options = all.skip(2);
    assert(options =~= seq![dc, option]);
    assert(options.drop_first() =~= seq![option]);
    assert(seq![option].drop_first() =~= Seq::<Seq<char>>::empty());
    let start = PartView { cut_no: 0, blend_type: 0, ..part };
    let mid = PartView { blend_type: 0, ..part };
    assert(with_options(part, Seq::empty()) == Ok::<PartView, DescriptorError>(part));
    assert(with_options(mid, seq![option]) == Ok::<PartView, DescriptorError>(part));
    assert(with_options(start, options) == Ok::<PartView, DescriptorError>(part));
}

/// A part that is written out is read as it was: its file, its place, its cut and
/// its blend type.
pub proof fn written_parts_are_read_back(part: PartView, rest: Seq<char>)
    requires
        !part.file_name.contains('('),
        !part.file_name.contains('|'),
        i32::MIN <= part.x <= i32::MAX,
        i32::MIN <= part.y <= i32::MAX,
        i32::MIN <= part.cut_no <= i32::MAX,
        i32::MIN <= part.blend_type <= i32::MAX,
    ensures
        first_part(written(part) + rest) == Ok::<(PartView, int), DescriptorError>(
            (part, written(part).len() as int),
        ),
{
    let name = part.file_name;
    let params = written_params(part);
    let s = written(part) + rest;
    assert(s.take(name.len() as int) =~= name);
    lemma_name_end(name, s);
    let inside = s.skip(name.len() as int + 1);
    assert(inside =~= params.push(')') + rest);
    lemma_params_plain(part);
    lemma_split(params, ')', rest);
    assert(inside.take(params.len() as int) =~= params);
    lemma_params(part);
}

proof fn lemma_name_end(name: Seq<char>, s: Seq<char>)
    requires
        !name.contains('('),
        !name.contains('|'),
        s.len() > name.len(),
        s.take(name.len() as int) == name,
        s[name.len() as int] == '(' || s[name.len() as int] == '|',
    ensures
        name_end(s) == name.len(),
    decreases name.len(),
{
    if name.len() > 0 {
        assert(s[0] == s.take(name.len() as int)[0]);
        assert(name.contains(name[0]));
        let rest = name.drop_first();
        let tail = s.drop_first();
        assert(tail.take(rest.len() as int) =~= rest);
        assert(!rest.contains('(')) by {
            if rest.contains('(') {
                let i = choose|i: int| 0 <= i < rest.len() && rest[i] == '(';
                assert(name[i + 1] == '(');
            }
        }
        assert(!rest.contains('|')) by {
            if rest.contains('|') {
                let i = choose|i: int| 0 <= i < rest.len() && rest[i] == '|';
                assert(name[i + 1] == '|');
            }
        }
        lemma_name_end(rest, tail);
    }
}

/// Parts with a `|` between them are read one after the other, and a file that is
/// named without numbers is drawn in place, its first cut and as it is.
pub proof fn parts_are_read_one_after_the_other(part: PartView, rest: Seq<char>, name: Seq<char>)
    requires
        !part.file_name.contains('('),
        !part.file_name.contains('|'),
        i32::MIN <= part.x <= i32::MAX,
        i32::MIN <= part.y <= i32::MAX,
        i32::MIN <= part.cut_no <= i32::MAX,
        i32::MIN <= part.blend_type <= i32::MAX,
        rest.len() > 0,
        !name.contains('('),
        !name.contains('|'),
    ensures
        parts_of(written(part)) == Ok::<Seq<PartView>, DescriptorError>(seq![part]),
        match parts_of(rest) {
            Ok(more) => parts_of(written(part).push('|') + rest) == Ok::<
                Seq<PartView>,
                DescriptorError,
            >(seq![part] + more),
            Err(e) => parts_of(written(part).push('|') + rest) == Err::<
                Seq<PartView>,
                DescriptorError,
            >(e),
        },
        parts_of(name.push('|') + rest) == (match parts_of(rest) {
            Ok(more) => Ok::<Seq<PartView>, DescriptorError>(
                seq![PartView { file_name: name, x: 0, y: 0, cut_no: 0, blend_type: 0 }] + more,
            ),
            Err(e) => Err(e),
        }),
{
    let w = written(part);
    written_parts_are_read_back(part, Seq::empty());
    assert(w + Seq::<char>::empty() =~= w);
    written_parts_are_read_back(part, seq!['|'] + rest);
    let s = w.push('|') + rest;
    assert(w + (seq!['|'] + rest) =~= s);
    assert(s.skip(w.len() as int + 1) =~= rest);
    let t = name.push('|') + rest;
    assert(t.take(name.len() as int) =~= name);
    lemma_name_end(name, t);
    assert(t.skip(name.len() as int + 1) =~= rest);
}

} // verus!
