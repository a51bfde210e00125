//! Paths as texts, with `/` between their parts.

use vstd::prelude::*;
use vstd::slice::slice_subrange;
use crate::text::{chars_of, text_of};
use crate::text_parts;
use crate::text_parts::{find_last_char, same_chars};

verus! {

/// The path without what adds no part at its end: separators and the part
/// `.`.
pub open spec fn tidy_end(p: Seq<char>) -> Seq<char>
    decreases p.len(),
{
    if p.len() > 1 && p.last() == '/' {
        tidy_end(p.drop_last())
    } else if p.len() > 1 && p.last() == '.' && p[p.len() - 2] == '/' {
        tidy_end(p.drop_last())
    } else {
        p
    }
}

/// Where the last part of a tidy path begins.
pub open spec fn last_part_start(p: Seq<char>) -> int {
    match text_parts::last_of(p, '/') {
        Some(k) => k + 1,
        None => 0,
    }
}

/// Whether a part names a file, not a place relative to another.
pub open spec fn names_file(part: Seq<char>) -> bool {
    part.len() > 0 && part != seq!['.'] && part != seq!['.', '.']
}

/// The last part of a path, where it names a file.
pub open spec fn file_name_of(path: Seq<char>) -> Option<Seq<char>> {
    let p = tidy_end(path);
    let name = p.skip(last_part_start(p));
    if names_file(name) {
        Some(name)
    } else {
        None
    }
}

/// What stands before the last part of a path.
pub open spec fn parent_of(path: Seq<char>) -> Seq<char> {
    let p = tidy_end(path);
    tidy_end(p.take(last_part_start(p)))
}

/// Whether a path begins at the root.
pub open spec fn is_absolute(path: Seq<char>) -> bool {
    path.len() > 0 && path[0] == '/'
}

/// `base` with `part` behind it. A part that begins at the root replaces the
/// base.
pub open spec fn joined(base: Seq<char>, part: Seq<char>) -> Seq<char> {
    if part.len() > 0 && part[0] == '/' {
        part
    } else if base.len() == 0 {
        part
    } else if base.last() == '/' {
        base + part
    } else {
        base.push('/') + part
    }
}

/// The path with another last part. A path without one gets it behind.
pub open spec fn renamed(path: Seq<char>, name: Seq<char>) -> Seq<char> {
    if file_name_of(path) is Some {
        joined(parent_of(path), name)
    } else {
        joined(path, name)
    }
}

fn tidy(p: &[char]) -> (r: &[char])
    ensures
        r@ == tidy_end(p@),
{
    let mut end: usize = p.len();
    proof {
        assert(p@.take(end as int) =~= p@);
    }
    while end > 1 && (p[end - 1] == '/' || (p[end - 1] == '.' && p[end - 2] == '/'))
        invariant
            end <= p@.len(),
            tidy_end(p@) == tidy_end(p@.take(end as int)),
        decreases end,
    {
        proof {
            assert(p@.take(end as int).drop_last() =~= p@.take(end - 1));
        }
        end = end - 1;
    }
    let r = slice_subrange(p, 0, end);
    proof {
        assert(r@ =~= p@.take(end as int));
    }
    r
}

fn last_start(p: &[char]) -> (r: usize)
    ensures
        r == last_part_start(p@),
        r <= p@.len(),
{
    match find_last_char(p, '/') {
        Some(k) => k + 1,
        None => 0,
    }
}

fn is_file_part(part: &[char]) -> (r: bool)
    ensures
        r == names_file(part@),
{
    if part.len() == 0 {
        return false;
    }
    if part.len() == 1 && part[0] == '.' {
        proof {
            assert(part@ =~= seq!['.']);
        }
        return false;
    }
    if part.len() == 2 && part[0] == '.' && part[1] == '.' {
        proof {
            assert(part@ =~= seq!['.', '.']);
        }
        return false;
    }
    true
}

/// The last part of a path, where it names a file.
pub fn file_name_chars(path: &[char]) -> (r: Option<Vec<char>>)
    ensures
        match r {
            Some(name) => file_name_of(path@) == Some(name@),
            None => file_name_of(path@) is None,
        },
{
    let p = tidy(path);
    let start: usize = last_start(p);
    let name = slice_subrange(p, start, p.len());
    proof {
        assert(name@ =~= p@.skip(start as int));
    }
    if is_file_part(name) {
        Some(vstd::slice::slice_to_vec(name))
    } else {
        None
    }
}

/// What stands before the last part of a path.
pub fn parent_chars(path: &[char]) -> (r: Vec<char>)
    ensures
        r@ == parent_of(path@),
{
    let p = tidy(path);
    let start: usize = last_start(p);
    let head = slice_subrange(p, 0, start);
    proof {
        assert(head@ =~= p@.take(start as int));
    }
    vstd::slice::slice_to_vec(tidy(head))
}

/// `base` with `part` behind it.
pub fn join_chars(base: &[char], part: &[char]) -> (r: Vec<char>)
    ensures
        r@ == joined(base@, part@),
{
    if (part.len() > 0 && part[0] == '/') || base.len() == 0 {
        return vstd::slice::slice_to_vec(part);
    }
    let mut r = vstd::slice::slice_to_vec(base);
    if base[base.len() - 1] != '/' {
        r.push('/');
    }
    let mut tail = vstd::slice::slice_to_vec(part);
    r.append(&mut tail);
    proof {
        assert(r@ =~= joined(base@, part@));
    }
    r
}

/// The path with another last part.
pub fn rename_chars(path: &[char], name: &[char]) -> (r: Vec<char>)
    ensures
        r@ == renamed(path@, name@),
{
    match file_name_chars(path) {
        Some(_) => {
            let parent = parent_chars(path);
            join_chars(parent.as_slice(), name)
        },
        None => join_chars(path, name),
    }
}

/// `base` with `part` behind it.
pub fn join_path(base: &str, part: &str) -> (r: String)
    ensures
        r@ == joined(base@, part@),
{
    let b = chars_of(base);
    let p = chars_of(part);
    text_of(join_chars(b.as_slice(), p.as_slice()).as_slice())
}

/// Whether a path begins at the root.
pub fn is_absolute_path(path: &str) -> (r: bool)
    ensures
        r == is_absolute(path@),
{
    path.unicode_len() > 0 && path.get_char(0) == '/'
}

/// The stem and the extension of a name: what stands before and behind its
/// last dot, where neither is empty.
pub open spec fn stem_and_extension(name: Seq<char>) -> Option<(Seq<char>, Seq<char>)> {
    match text_parts::last_of(name, '.') {
        Some(k) => if 0 < k < name.len() - 1 {
            Some((name.take(k), name.skip(k + 1)))
        } else {
            None
        },
        None => None,
    }
}

pub fn split_stem_ext(name: &[char]) -> (r: Option<(Vec<char>, Vec<char>)>)
    ensures
        match r {
            Some((stem, ext)) => stem_and_extension(name@) == Some((stem@, ext@)),
            None => stem_and_extension(name@) is None,
        },
{
    match find_last_char(name, '.') {
        Some(k) => {
            if k == 0 || k + 1 == name.len() {
                return None;
            }
            let stem = slice_subrange(name, 0, k);
            let ext = slice_subrange(name, k + 1, name.len());
            proof {
                assert(stem@ =~= name@.take(k as int));
                assert(ext@ =~= name@.skip(k + 1));
            }
            Some((vstd::slice::slice_to_vec(stem), vstd::slice::slice_to_vec(ext)))
        },
        None => None,
    }
}

/// `\` replaced by `/`.
pub open spec fn with_slashes(p: Seq<char>) -> Seq<char> {
    p.map_values(
        |c: char|
            if c == '\\' {
                '/'
            } else {
                c
            },
    )
}

pub fn slashed(p: &str) -> (r: Vec<char>)
    ensures
        r@ == with_slashes(p@),
{
    let chars = chars_of(p);
    let mut r: Vec<char> = Vec::new();
    let mut i: usize = 0;
    while i < chars.len()
        invariant
            chars@ == p@,
            i <= chars@.len(),
            r@ == with_slashes(p@).take(i as int),
        decreases chars@.len() - i,
    {
        r.push(
            if chars[i] == '\\' {
                '/'
            } else {
                chars[i]
            },
        );
        i = i + 1;
        proof {
            assert(r@ =~= with_slashes(p@).take(i as int));
        }
    }
    proof {
        assert(r@ =~= with_slashes(p@));
    }
    r
}

/// Whether a part counts in a resource path.
pub open spec fn counts(part: Seq<char>) -> bool {
    part.len() > 0 && part != seq!['.']
}

/// The parts that count, with `/` between them.
pub open spec fn joined_parts(parts: Seq<Seq<char>>) -> Seq<char>
    decreases parts.len(),
{
    if parts.len() == 0 {
        Seq::empty()
    } else {
        let before = joined_parts(parts.drop_last());
        if !counts(parts.last()) {
            before
        } else if before.len() == 0 {
            parts.last()
        } else {
            before.push('/') + parts.last()
        }
    }
}

/// The resource path that a script's path stands for: `/` between the parts,
/// no empty part and no `.`.
pub open spec fn resource_path(path: Seq<char>) -> Seq<char> {
    joined_parts(text_parts::split_on(with_slashes(path), '/'))
}

proof fn lemma_split_last(a: Seq<char>, t: Seq<char>)
    requires
        !t.contains('/'),
    ensures
        text_parts::split_on(a.push('/') + t, '/') == text_parts::split_on(a, '/') + seq![t],
    decreases a.len(),
{
    let whole = a.push('/') + t;
    if a.contains('/') {
        let i = text_parts::first_of(a, '/')->0;
        let k = choose|k: int| 0 <= k < a.len() && a[k] == '/';
        text_parts::lemma_has_first(a, '/', k);
        assert(whole[i] == '/');
        text_parts::lemma_first(whole, '/', i);
        let rest = a.skip(i + 1);
        lemma_split_last(rest, t);
        assert(whole.take(i) =~= a.take(i));
        assert(whole.skip(i + 1) =~= rest.push('/') + t);
        assert(text_parts::split_on(whole, '/') =~= text_parts::split_on(a, '/') + seq![t]);
    } else {
        let n = a.len() as int;
        assert(whole[n] == '/');
        assert forall|k: int| 0 <= k < n implies whole[k] != '/' by {
            assert(whole[k] == a[k]);
            assert(a.contains(a[k]));
        }
        text_parts::lemma_first(whole, '/', n);
        assert(whole.take(n) =~= a);
        assert(whole.skip(n + 1) =~= t);
        assert(text_parts::split_on(t, '/') == seq![t]);
        assert(text_parts::split_on(a, '/') == seq![a]);
        assert(text_parts::split_on(whole, '/') =~= text_parts::split_on(a, '/') + seq![t]);
    }
}

/// Whether parts hold neither kind of slash.
spec fn plain(parts: Seq<Seq<char>>) -> bool {
    forall|i: int| 0 <= i < parts.len() ==> !(#[trigger] parts[i]).contains('/') && !parts[i].contains('\\')
}

proof fn lemma_parts_are_plain(s: Seq<char>)
    requires
        !s.contains('\\'),
    ensures
        plain(text_parts::split_on(s, '/')),
    decreases s.len(),
{
    let parts = text_parts::split_on(s, '/');
    if s.contains('/') {
        let k = choose|k: int| 0 <= k < s.len() && s[k] == '/';
        text_parts::lemma_has_first(s, '/', k);
        let i = text_parts::first_of(s, '/')->0;
        let rest = s.skip(i + 1);
        assert(!rest.contains('\\')) by {
            if rest.contains('\\') {
                let j = choose|j: int| 0 <= j < rest.len() && rest[j] == '\\';
                assert(s[i + 1 + j] == '\\');
            }
        }
        lemma_parts_are_plain(rest);
        let first = s.take(i);
        assert(!first.contains('/') && !first.contains('\\')) by {
            if first.contains('\\') {
                let j = choose|j: int| 0 <= j < first.len() && first[j] == '\\';
                assert(s[j] == '\\');
            }
            if first.contains('/') {
                let j = choose|j: int| 0 <= j < first.len() && first[j] == '/';
                assert(s[j] == '/');
            }
        }
        assert forall|j: int| 0 <= j < parts.len() implies !(#[trigger] parts[j]).contains('/')
            && !parts[j].contains('\\') by {
            if j > 0 {
                assert(parts[j] == text_parts::split_on(rest, '/')[j - 1]);
            }
        }
    }
}

proof fn lemma_joined_is_kept(parts: Seq<Seq<char>>)
    requires
        plain(parts),
    ensures
        !joined_parts(parts).contains('\\'),
        joined_parts(text_parts::split_on(joined_parts(parts), '/')) == joined_parts(parts),
    decreases parts.len(),
{
    reveal_with_fuel(joined_parts, 2);
    let whole = joined_parts(parts);
    if parts.len() == 0 {
        let one = text_parts::split_on(whole, '/');
        assert(one =~= seq![whole]);
        assert(one.drop_last() =~= Seq::<Seq<char>>::empty());
    } else {
        let front = parts.drop_last();
        let last = parts.last();
        assert(plain(front));
        lemma_joined_is_kept(front);
        let before = joined_parts(front);
        if counts(last) {
            if before.len() == 0 {
                let one = text_parts::split_on(last, '/');
                assert(one =~= seq![last]);
                assert(one.drop_last() =~= Seq::<Seq<char>>::empty());
            } else {
                lemma_split_last(before, last);
                let split = text_parts::split_on(whole, '/');
                assert(split.drop_last() =~= text_parts::split_on(before, '/'));
                assert(split.last() == last);
                assert(!whole.contains('\\')) by {
                    if whole.contains('\\') {
                        let j = choose|j: int| 0 <= j < whole.len() && whole[j] == '\\';
                        if j < before.len() {
                            assert(before[j] == '\\');
                        } else if j > before.len() {
                            assert(last[j - before.len() - 1] == '\\');
                        }
                    }
                }
            }
        }
    }
}

/// A resource path stands for itself.
pub proof fn resource_paths_are_kept(path: Seq<char>)
    ensures
        resource_path(resource_path(path)) == resource_path(path),
{
    let q = with_slashes(path);
    assert(!q.contains('\\')) by {
        if q.contains('\\') {
            let j = choose|j: int| 0 <= j < q.len() && q[j] == '\\';
            assert(q[j] != '\\');
        }
    }
    let parts = text_parts::split_on(q, '/');
    lemma_parts_are_plain(q);
    lemma_joined_is_kept(parts);
    let whole = joined_parts(parts);
    assert(with_slashes(whole) =~= whole) by {
        assert forall|j: int| 0 <= j < whole.len() implies with_slashes(whole)[j] == whole[j] by {
            assert(whole.contains(whole[j]));
        }
    }
}

/// The resource path that a script's path stands for.
pub fn normalize_siglus_path(path: &str) -> (r: String)
    ensures
        r@ == resource_path(path@),
{
    let chars = slashed(path);
    let parts = text_parts::split(chars.as_slice(), '/');
    let ghost all = text_parts::views(parts@);
    let mut out: Vec<char> = Vec::new();
    let mut i: usize = 0;
    let dot: [char; 1] = ['.'];
    proof {
        assert(dot@ =~= seq!['.']);
        assert(all.take(0) =~= Seq::<Seq<char>>::empty());
    }
    while i < parts.len()
        invariant
            all == text_parts::views(parts@),
            i <= parts@.len(),
            dot@ == seq!['.'],
            out@ == joined_parts(all.take(i as int)),
        decreases parts@.len() - i,
    {
        proof {
            let taken = all.take(i + 1);
            assert(taken.drop_last() =~= all.take(i as int));
            assert(taken.last() == parts@[i as int]@);
        }
        let part = &parts[i];
        if part.len() > 0 && !same_chars(part.as_slice(), dot.as_slice()) {
            if out.len() > 0 {
                out.push('/');
            }
            let mut tail = vstd::slice::slice_to_vec(part.as_slice());
            out.append(&mut tail);
            proof {
                assert(out@ =~= joined_parts(all.take(i + 1)));
            }
        }
        i = i + 1;
    }
    proof {
        assert(all.take(i as int) =~= all);
    }
    text_of(out.as_slice())
}

/// What a path begins with: the root, the place where it is looked up from, or
/// neither.
pub open spec fn beginning(path: Seq<char>) -> Seq<Seq<char>> {
    if is_absolute(path) {
        seq![seq!['/']]
    } else if text_parts::split_on(path, '/')[0] == seq!['.'] {
        seq![seq!['.']]
    } else {
        seq![]
    }
}

/// The parts of a path by which it is compared. Separators in a row count as
/// one, one at the end adds nothing, and a part `.` counts at the beginning
/// only.
pub open spec fn components(path: Seq<char>) -> Seq<Seq<char>> {
    beginning(path) + text_parts::split_on(path, '/').filter(|part: Seq<char>| counts(part))
}

/// Whether two paths are the same.
pub open spec fn same_path(a: Seq<char>, b: Seq<char>) -> bool {
    components(a) == components(b)
}

/// The parts of a path by which it is compared.
fn path_components(path: &str) -> (r: Vec<Vec<char>>)
    ensures
        text_parts::views(r@) == components(path@),
{
    let chars = chars_of(path);
    let parts = text_parts::split(chars.as_slice(), '/');
    let ghost all = text_parts::views(parts@);
    let ghost counting = |part: Seq<char>| counts(part);
    let dot: [char; 1] = ['.'];
    let mut out: Vec<Vec<char>> = Vec::new();
    proof {
        assert(dot@ =~= seq!['.']);
        assert(all == text_parts::split_on(path@, '/'));
        assert(all.len() == parts@.len() && all.len() >= 1);
        assert(all[0] == parts@[0]@);
    }
    if chars.len() > 0 && chars[0] == '/' {
        let mut root: Vec<char> = Vec::new();
        root.push('/');
        proof {
            assert(root@ =~= seq!['/']);
        }
        out.push(root);
    } else if same_chars(parts[0].as_slice(), dot.as_slice()) {
        out.push(vstd::slice::slice_to_vec(dot.as_slice()));
    }
    let mut i: usize = 0;
    proof {
        assert(text_parts::views(out@) =~= beginning(path@));
        assert(all.take(0).filter(counting) =~= Seq::<Seq<char>>::empty()) by {
            reveal(Seq::filter);
        }
        assert(text_parts::views(out@) =~= beginning(path@) + all.take(0).filter(counting));
    }
    while i < parts.len()
        invariant
            all == text_parts::views(parts@),
            counting == (|part: Seq<char>| counts(part)),
            i <= parts@.len(),
            dot@ == seq!['.'],
            text_parts::views(out@) == beginning(path@) + all.take(i as int).filter(counting),
        decreases parts@.len() - i,
    {
        let part = &parts[i];
        proof {
            let taken = all.take(i + 1);
            assert(taken.drop_last() =~= all.take(i as int));
            assert(taken.last() == part@);
            reveal(Seq::filter);
        }
        if part.len() > 0 && !same_chars(part.as_slice(), dot.as_slice()) {
            let ghost was = text_parts::views(out@);
            out.push(vstd::slice::slice_to_vec(part.as_slice()));
            proof {
                assert(text_parts::views(out@) =~= was.push(part@));
                assert(was.push(part@) =~= beginning(path@) + all.take(i as int).filter(
                    counting,
                ).push(part@));
            }
        }
        i = i + 1;
    }
    proof {
        assert(all.take(i as int) =~= all);
    }
    out
}

/// Whether two paths are the same.
pub fn is_same_path(a: &str, b: &str) -> (r: bool)
    ensures
        r == same_path(a@, b@),
{
    let left = path_components(a);
    let right = path_components(b);
    let ghost x = text_parts::views(left@);
    let ghost y = text_parts::views(right@);
    if left.len() != right.len() {
        proof {
            assert(x.len() == left@.len() && y.len() == right@.len());
        }
        return false;
    }
    let mut i: usize = 0;
    while i < left.len()
        invariant
            x == text_parts::views(left@),
            y == text_parts::views(right@),
            x == components(a@),
            y == components(b@),
            left@.len() == right@.len(),
            i <= left@.len(),
            forall|k: int| 0 <= k < i ==> x[k] == y[k],
        decreases left@.len() - i,
    {
        if !same_chars(left[i].as_slice(), right[i].as_slice()) {
            proof {
                assert(x[i as int] != y[i as int]);
            }
            return false;
        }
        proof {
            assert(x[i as int] == y[i as int]);
        }
        i = i + 1;
    }
    proof {
        assert(x =~= y);
    }
    true
}

/// The kind of a part by which it is ordered first: the root, `.`, `..`, and a
/// name.
pub open spec fn part_rank(part: Seq<char>) -> int {
    if part == seq!['/'] {
        0
    } else if part == seq!['.'] {
        1
    } else if part == seq!['.', '.'] {
        2
    } else {
        3
    }
}

/// Whether a part comes before another: by their kinds, and names by their
/// characters.
pub open spec fn part_before(a: Seq<char>, b: Seq<char>) -> bool {
    part_rank(a) < part_rank(b) || (part_rank(a) == part_rank(b) && text_parts::before(a, b))
}

/// Whether some parts come before others, part by part.
pub open spec fn parts_before(a: Seq<Seq<char>>, b: Seq<Seq<char>>) -> bool
    decreases a.len(),
{
    if b.len() == 0 {
        false
    } else if a.len() == 0 {
        true
    } else if a[0] != b[0] {
        part_before(a[0], b[0])
    } else {
        parts_before(a.drop_first(), b.drop_first())
    }
}

/// Whether a path comes before another, part by part.
pub open spec fn path_before(a: Seq<char>, b: Seq<char>) -> bool {
    parts_before(components(a), components(b))
}

proof fn lemma_part_order(a: Seq<char>, b: Seq<char>)
    ensures
        !(part_before(a, b) && part_before(b, a)),
        a != b ==> part_before(a, b) || part_before(b, a),
{
    text_parts::texts_are_ordered(a, b);
}

proof fn lemma_part_gap(a: Seq<char>, between: Seq<char>, b: Seq<char>)
    requires
        part_before(a, b),
    ensures
        part_before(a, between) || part_before(between, b),
{
    if text_parts::before(a, b) {
        text_parts::order_has_no_gap(a, between, b);
    }
}

proof fn lemma_parts_order(a: Seq<Seq<char>>, b: Seq<Seq<char>>)
    ensures
        !(parts_before(a, b) && parts_before(b, a)),
        a != b ==> parts_before(a, b) || parts_before(b, a),
    decreases a.len(),
{
    if a.len() > 0 && b.len() > 0 {
        if a[0] == b[0] {
            lemma_parts_order(a.drop_first(), b.drop_first());
            if a.drop_first() == b.drop_first() {
                assert(a =~= seq![a[0]] + a.drop_first());
                assert(b =~= seq![b[0]] + b.drop_first());
            }
        } else {
            lemma_part_order(a[0], b[0]);
        }
    } else if a.len() == 0 && b.len() == 0 {
        assert(a =~= b);
    }
}

proof fn lemma_parts_gap(a: Seq<Seq<char>>, between: Seq<Seq<char>>, b: Seq<Seq<char>>)
    requires
        parts_before(a, b),
    ensures
        parts_before(a, between) || parts_before(between, b),
    decreases a.len(),
{
    if a.len() > 0 && between.len() > 0 {
        if a[0] == b[0] {
            if between[0] == a[0] {
                lemma_parts_gap(a.drop_first(), between.drop_first(), b.drop_first());
            } else {
                lemma_part_order(a[0], between[0]);
            }
        } else {
            lemma_part_gap(a[0], between[0], b[0]);
        }
    }
}

/// Of two paths that are not the same one comes before the other, and never
/// both.
pub proof fn paths_are_ordered(a: Seq<char>, b: Seq<char>)
    ensures
        !(path_before(a, b) && path_before(b, a)),
        !same_path(a, b) ==> path_before(a, b) || path_before(b, a),
{
    lemma_parts_order(components(a), components(b));
}

/// A path between two others is behind the first or before the last.
pub proof fn path_order_has_no_gap(a: Seq<char>, between: Seq<char>, b: Seq<char>)
    requires
        path_before(a, b),
    ensures
        path_before(a, between) || path_before(between, b),
{
    lemma_parts_gap(components(a), components(between), components(b));
}

fn rank_of_part(part: &[char]) -> (r: u8)
    ensures
        r == part_rank(part@),
{
    let root: [char; 1] = ['/'];
    let here: [char; 1] = ['.'];
    let up: [char; 2] = ['.', '.'];
    proof {
        assert(root@ =~= seq!['/']);
        assert(here@ =~= seq!['.']);
        assert(up@ =~= seq!['.', '.']);
    }
    if same_chars(part, root.as_slice()) {
        0
    } else if same_chars(part, here.as_slice()) {
        1
    } else if same_chars(part, up.as_slice()) {
        2
    } else {
        3
    }
}

/// Whether a path comes before another.
pub fn is_path_before(a: &str, b: &str) -> (r: bool)
    ensures
        r == path_before(a@, b@),
{
    let left = path_components(a);
    let right = path_components(b);
    let ghost x = text_parts::views(left@);
    let ghost y = text_parts::views(right@);
    let mut i: usize = 0;
    proof {
        assert(x.skip(0) =~= x);
        assert(y.skip(0) =~= y);
    }
    while i < left.len() && i < right.len()
        invariant
            x == text_parts::views(left@),
            y == text_parts::views(right@),
            x == components(a@),
            y == components(b@),
            i <= left@.len(),
            i <= right@.len(),
            parts_before(x, y) == parts_before(x.skip(i as int), y.skip(i as int)),
        decreases left@.len() - i,
    {
        let p = left[i].as_slice();
        let q = right[i].as_slice();
        proof {
            assert(x.skip(i as int)[0] == p@);
            assert(y.skip(i as int)[0] == q@);
        }
        if !same_chars(p, q) {
            let m: u8 = rank_of_part(p);
            let n: u8 = rank_of_part(q);
            return m < n || (m == n && text_parts::is_before(p, q));
        }
        proof {
            assert(x.skip(i as int).drop_first() =~= x.skip(i + 1));
            assert(y.skip(i as int).drop_first() =~= y.skip(i + 1));
        }
        i = i + 1;
    }
    i < right.len()
}

/// Where the stem of a name ends: at its last dot, unless the name begins
/// with it.
pub open spec fn stem_end(name: Seq<char>) -> int {
    match text_parts::last_of(name, '.') {
        Some(k) => if k > 0 {
            k
        } else {
            name.len() as int
        },
        None => name.len() as int,
    }
}

/// Whether the last part of a path has an extension. It may be empty.
pub open spec fn has_extension(path: Seq<char>) -> bool {
    file_name_of(path) matches Some(name) && stem_end(name) < name.len()
}

/// The path with another extension. A path without a file name stays as it
/// is.
pub open spec fn extended(path: Seq<char>, ext: Seq<char>) -> Seq<char> {
    match file_name_of(path) {
        Some(name) => {
            let p = tidy_end(path);
            p.take(last_part_start(p) + stem_end(name)).push('.') + ext
        },
        None => path,
    }
}

fn find_stem_end(name: &[char]) -> (r: usize)
    ensures
        r == stem_end(name@),
        r <= name@.len(),
{
    match find_last_char(name, '.') {
        Some(k) => if k > 0 {
            k
        } else {
            name.len()
        },
        None => name.len(),
    }
}

/// Whether the last part of a path has an extension.
pub fn path_has_extension(path: &str) -> (r: bool)
    ensures
        r == has_extension(path@),
{
    let chars = chars_of(path);
    match file_name_chars(chars.as_slice()) {
        Some(name) => find_stem_end(name.as_slice()) < name.len(),
        None => false,
    }
}

/// The path with another extension.
pub fn with_extension(path: &str, ext: &str) -> (r: String)
    ensures
        r@ == extended(path@, ext@),
{
    let chars = chars_of(path);
    match file_name_chars(chars.as_slice()) {
        Some(name) => {
            let p = tidy(chars.as_slice());
            let start: usize = last_start(p);
            let end: usize = find_stem_end(name.as_slice());
            let len: usize = p.len();
            proof {
                assert(name@ == p@.skip(start as int));
            }
            let mut r = text_of(slice_subrange(p, 0, start + end));
            proof {
                assert(r@ =~= p@.take(start + end));
            }
            r.push('.');
            r.append(ext);
            r
        },
        None => path.to_owned(),
    }
}

/// A file in a directory has the name that it was given there, and lies in that directory.
pub proof fn joined_paths_end_with_their_name(base: Seq<char>, name: Seq<char>)
    requires
        base.len() > 0,
        names_file(name),
        !name.contains('/'),
    ensures
        file_name_of(joined(base, name)) == Some(name),
        parent_of(joined(base, name)) == tidy_end(
            if base.last() == '/' {
                base
            } else {
                base.push('/')
            },
        ),
{
    let p = joined(base, name);
    assert(name.last() != '/') by {
        if name.last() == '/' {
            assert(name.contains(name[name.len() - 1]));
        }
    }
    assert(name[0] != '/') by {
        if name[0] == '/' {
            assert(name.contains(name[0]));
        }
    }
    let n: int = p.len() - name.len();
    assert(p[n - 1] == '/');
    assert(p.skip(n) =~= name);
    assert(p.last() == name.last());
    if p.last() == '.' && p[p.len() - 2] == '/' {
        if name.len() == 1 {
            assert(name =~= seq!['.']);
        } else {
            assert(name[name.len() - 2] == '/');
            assert(name.contains(name[name.len() - 2]));
        }
    }
    assert(tidy_end(p) == p);
    assert forall|k: int| n - 1 < k < p.len() implies p[k] != '/' by {
        assert(p[k] == name[k - n]);
        if name[k - n] == '/' {
            assert(name.contains(name[k - n]));
        }
    }
    text_parts::lemma_last(p, '/', n - 1);
    assert(p.take(n) =~= if base.last() == '/' {
        base
    } else {
        base.push('/')
    });
}

/// A name is parted at its last dot: the stem, the dot and the extension make the name, and the
/// extension holds no dot.
pub proof fn names_are_parted_at_the_last_dot(stem: Seq<char>, ext: Seq<char>)
    requires
        stem.len() > 0,
        ext.len() > 0,
        !ext.contains('.'),
    ensures
        stem_and_extension(stem.push('.') + ext) == Some((stem, ext)),
        stem_end(stem.push('.') + ext) == stem.len(),
        stem_and_extension(ext) is None,
        stem_end(ext) == ext.len(),
{
    let name = stem.push('.') + ext;
    let k: int = stem.len() as int;
    assert forall|j: int| k < j < name.len() implies name[j] != '.' by {
        assert(name[j] == ext[j - k - 1]);
        if ext[j - k - 1] == '.' {
            assert(ext.contains(ext[j - k - 1]));
        }
    }
    text_parts::lemma_last(name, '.', k);
    assert(name.take(k) =~= stem);
    assert(name.skip(k + 1) =~= ext);
}

/// Paths that part directories by either slash are the same path within the project.
pub proof fn both_slashes_part_directories(path: Seq<char>, i: int)
    requires
        0 <= i < path.len(),
    ensures
        with_slashes(path).len() == path.len(),
        path[i] == '\\' || path[i] == '/' ==> with_slashes(path)[i] == '/',
        path[i] != '\\' ==> with_slashes(path)[i] == path[i],
        resource_path(with_slashes(path)) == resource_path(path),
{
    assert(with_slashes(with_slashes(path)) =~= with_slashes(path));
}

} // verus!
