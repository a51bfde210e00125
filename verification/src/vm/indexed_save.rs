//! Telling the layout of a save that names scenes by their numbers.
//!
//! A probe walks over the records at the front of a stream and keeps nothing
//! of them, so that a count at a wrong place takes no memory.

use vstd::prelude::*;
use crate::bytes;
use crate::runtime::scene_metadata::SceneMetadata;
use crate::runtime::stream;
use crate::runtime::stream::StreamReader;
use crate::vm::record;
use crate::vm::record::read_count;

verus! {

/// The sizes in which layouts differ.
#[derive(Debug, Clone, Copy, PartialEq, Eq, Structural)]
pub struct LayoutSizes {
    /// How many codes an element path has room for.
    pub element_capacity: usize,
    /// How many bytes stand at the end of a process.
    pub proc_trailer_bytes: usize,
    /// How many bytes the settings take, without those of the buttons.
    pub settings_bytes: usize,
}

/// The forms of lists.
#[derive(Debug, Clone, Copy, PartialEq, Eq, Structural)]
pub struct ListForms {
    pub int_list: i32,
    pub str_list: i32,
}

/// How deep properties may be nested.
pub const MAX_DEPTH: usize = 64;

pub open spec fn element_size(sizes: LayoutSizes) -> int {
    (sizes.element_capacity + 1) * 4
}

/// What stands behind `n` bytes.
pub open spec fn behind(b: Seq<u8>, n: int) -> Option<Seq<u8>> {
    match stream::raw_of(b, n) {
        Ok((_, rest)) => Some(rest),
        Err(_) => None,
    }
}

/// A number and what stands behind it.
pub open spec fn int_front(b: Seq<u8>) -> Option<(int, Seq<u8>)> {
    match stream::i32_of(b) {
        Ok(p) => Some(p),
        Err(_) => None,
    }
}

/// A count and what stands behind it.
pub open spec fn count_front(b: Seq<u8>, least: int) -> Option<(int, Seq<u8>)> {
    match record::count_of(b, least) {
        Ok(p) => Some(p),
        Err(_) => None,
    }
}

/// What stands behind `n` texts.
pub open spec fn behind_texts(b: Seq<u8>, n: int) -> Option<Seq<u8>>
    decreases n,
{
    if n <= 0 {
        Some(b)
    } else {
        match behind_texts(b, n - 1) {
            None => None,
            Some(rest) => match stream::string_of(rest) {
                Ok((_, tail)) => Some(tail),
                Err(_) => None,
            },
        }
    }
}

/// What stands behind the items of a list property.
pub open spec fn behind_items(b: Seq<u8>, form: int, forms: ListForms) -> Option<Seq<u8>> {
    if form == forms.int_list {
        match count_front(b, 4) {
            None => None,
            Some((n, rest)) => behind(rest, 4 * n),
        }
    } else if form == forms.str_list {
        match count_front(b, 4) {
            None => None,
            Some((n, rest)) => behind_texts(rest, n),
        }
    } else {
        Some(b)
    }
}

/// The form of a property, and what stands behind its name and element.
pub open spec fn prop_head(b: Seq<u8>, sizes: LayoutSizes) -> Option<(int, Seq<u8>)> {
    match int_front(b) {
        None => None,
        Some((_, b1)) => match int_front(b1) {
            None => None,
            Some((form, b2)) => match int_front(b2) {
                None => None,
                Some((_, b3)) => match stream::string_of(b3) {
                    Err(_) => None,
                    Ok((_, b4)) => match behind(b4, element_size(sizes)) {
                        None => None,
                        Some(b5) => Some((form, b5)),
                    },
                },
            },
        },
    }
}

/// What stands behind a property.
pub open spec fn behind_prop(
    b: Seq<u8>,
    sizes: LayoutSizes,
    forms: ListForms,
    depth: int,
) -> Option<Seq<u8>>
    decreases MAX_DEPTH - depth, 0int,
{
    if depth >= MAX_DEPTH {
        None
    } else {
        match prop_head(b, sizes) {
            None => None,
            Some((form, b1)) => match count_front(b1, element_size(sizes) + 24) {
                None => None,
                Some((n, b2)) => match behind_props(b2, sizes, forms, n, depth + 1) {
                    None => None,
                    Some(b3) => match int_front(b3) {
                        None => None,
                        Some((_, b4)) => behind_items(b4, form, forms),
                    },
                },
            },
        }
    }
}

/// What stands behind `n` properties.
pub open spec fn behind_props(
    b: Seq<u8>,
    sizes: LayoutSizes,
    forms: ListForms,
    n: int,
    depth: int,
) -> Option<Seq<u8>>
    decreases MAX_DEPTH - depth, n + 1,
{
    if n <= 0 {
        Some(b)
    } else {
        match behind_props(b, sizes, forms, n - 1, depth) {
            None => None,
            Some(rest) => behind_prop(rest, sizes, forms, depth),
        }
    }
}

/// What stands behind a process.
pub open spec fn behind_proc(b: Seq<u8>, sizes: LayoutSizes, forms: ListForms) -> Option<Seq<u8>> {
    match behind(b, 8 + element_size(sizes)) {
        None => None,
        Some(b1) => match count_front(b1, element_size(sizes) + 24) {
            None => None,
            Some((n, b2)) => match behind_props(b2, sizes, forms, n, 0) {
                None => None,
                Some(b3) => behind(b3, sizes.proc_trailer_bytes as int),
            },
        },
    }
}

/// What stands behind `n` processes.
pub open spec fn behind_procs(
    b: Seq<u8>,
    sizes: LayoutSizes,
    forms: ListForms,
    n: int,
) -> Option<Seq<u8>>
    decreases n,
{
    if n <= 0 {
        Some(b)
    } else {
        match behind_procs(b, sizes, forms, n - 1) {
            None => None,
            Some(rest) => behind_proc(rest, sizes, forms),
        }
    }
}

/// What stands behind three numbers of which none is negative.
pub open spec fn behind_position(b: Seq<u8>) -> Option<Seq<u8>> {
    match int_front(b) {
        None => None,
        Some((x, b1)) => match int_front(b1) {
            None => None,
            Some((y, b2)) => match int_front(b2) {
                None => None,
                Some((z, b3)) => if x >= 0 && y >= 0 && z >= 0 {
                    Some(b3)
                } else {
                    None
                },
            },
        },
    }
}

/// What stands behind the front of a save: the place in the script, the
/// processes, three elements and the settings.
pub open spec fn behind_front(
    b: Seq<u8>,
    sizes: LayoutSizes,
    forms: ListForms,
    buttons: int,
) -> Option<Seq<u8>> {
    match behind_position(b) {
        None => None,
        Some(b1) => match behind_proc(b1, sizes, forms) {
            None => None,
            Some(b2) => match count_front(b2, element_size(sizes) + 18) {
                None => None,
                Some((n, b3)) => match behind_procs(b3, sizes, forms, n) {
                    None => None,
                    Some(b4) => match behind(b4, 3 * element_size(sizes) + 16) {
                        None => None,
                        Some(b5) => match stream::string_of(b5) {
                            Err(_) => None,
                            Ok((_, b6)) => behind(b6, sizes.settings_bytes + buttons),
                        },
                    },
                },
            },
        },
    }
}

proof fn lemma_texts_fail(b: Seq<u8>, k: int, n: int)
    requires
        0 <= k <= n,
        behind_texts(b, k) is None,
    ensures
        behind_texts(b, n) is None,
    decreases n,
{
    if k < n {
        lemma_texts_fail(b, k, n - 1);
    }
}

proof fn lemma_props_fail(
    b: Seq<u8>,
    sizes: LayoutSizes,
    forms: ListForms,
    k: int,
    n: int,
    depth: int,
)
    requires
        0 <= k <= n,
        behind_props(b, sizes, forms, k, depth) is None,
    ensures
        behind_props(b, sizes, forms, n, depth) is None,
    decreases n,
{
    if k < n {
        lemma_props_fail(b, sizes, forms, k, n - 1, depth);
    }
}

proof fn lemma_procs_fail(b: Seq<u8>, sizes: LayoutSizes, forms: ListForms, k: int, n: int)
    requires
        0 <= k <= n,
        behind_procs(b, sizes, forms, k) is None,
    ensures
        behind_procs(b, sizes, forms, n) is None,
    decreases n,
{
    if k < n {
        lemma_procs_fail(b, sizes, forms, k, n - 1);
    }
}

fn pass_int(rd: &mut StreamReader) -> (r: Option<i32>)
    requires
        old(rd).wf(),
    ensures
        final(rd).wf(),
        final(rd).data == old(rd).data,
        match (r, int_front(old(rd).rest())) {
            (Some(v), Some(p)) => v == p.0 && final(rd).rest() == p.1,
            (None, None) => true,
            _ => false,
        },
{
    match rd.i32() {
        Ok(v) => Some(v),
        Err(_) => None,
    }
}

fn pass(rd: &mut StreamReader, n: usize) -> (r: bool)
    requires
        old(rd).wf(),
    ensures
        final(rd).wf(),
        final(rd).data == old(rd).data,
        r ==> behind(old(rd).rest(), n as int) == Some(final(rd).rest()),
        !r ==> behind(old(rd).rest(), n as int) is None,
{
    match rd.skip(n) {
        Ok(_) => true,
        Err(_) => false,
    }
}

fn pass_text(rd: &mut StreamReader) -> (r: bool)
    requires
        old(rd).wf(),
    ensures
        final(rd).wf(),
        final(rd).data == old(rd).data,
        match stream::string_of(old(rd).rest()) {
            Ok(p) => r && final(rd).rest() == p.1,
            Err(_) => !r,
        },
{
    match rd.string() {
        Ok(_) => true,
        Err(_) => false,
    }
}

fn pass_count(rd: &mut StreamReader, least: usize) -> (r: Option<usize>)
    requires
        old(rd).wf(),
        least > 0,
    ensures
        final(rd).wf(),
        final(rd).data == old(rd).data,
        match (r, count_front(old(rd).rest(), least as int)) {
            (Some(n), Some(p)) => n == p.0 && final(rd).rest() == p.1 && n <= p.1.len() as int
                / least as int,
            (None, None) => true,
            _ => false,
        },
{
    match read_count(rd, least) {
        Ok(n) => Some(n),
        Err(_) => None,
    }
}

fn pass_items(rd: &mut StreamReader, form: i32, forms: ListForms) -> (r: bool)
    requires
        old(rd).wf(),
    ensures
        final(rd).wf(),
        final(rd).data == old(rd).data,
        r ==> behind_items(old(rd).rest(), form as int, forms) == Some(final(rd).rest()),
        !r ==> behind_items(old(rd).rest(), form as int, forms) is None,
{
    if form == forms.int_list {
        let n: usize = match pass_count(rd, 4) {
            Some(n) => n,
            None => {
                return false;
            },
        };
        let _left: usize = rd.remaining();
        return pass(rd, 4 * n);
    }
    if form != forms.str_list {
        return true;
    }
    let n: usize = match pass_count(rd, 4) {
        Some(n) => n,
        None => {
            return false;
        },
    };
    let ghost b = rd.rest();
    let ghost whole = behind_items(old(rd).rest(), form as int, forms);
    let mut i: usize = 0;
    while i < n
        invariant
            i <= n,
            rd.wf(),
            rd.data == old(rd).data,
            whole == behind_items(old(rd).rest(), form as int, forms),
            whole == behind_texts(b, n as int),
            behind_texts(b, i as int) == Some(rd.rest()),
        decreases n - i,
    {
        if !pass_text(rd) {
            proof {
                lemma_texts_fail(b, i + 1, n as int);
            }
            return false;
        }
        i = i + 1;
    }
    true
}

fn size_of_element(sizes: LayoutSizes) -> (n: usize)
    requires
        sizes.element_capacity <= 0xffff,
    ensures
        n == element_size(sizes),
        n <= 0x4_0000,
{
    (sizes.element_capacity + 1) * 4
}

fn pass_prop_head(rd: &mut StreamReader, sizes: LayoutSizes) -> (r: Option<i32>)
    requires
        old(rd).wf(),
        sizes.element_capacity <= 0xffff,
    ensures
        final(rd).wf(),
        final(rd).data == old(rd).data,
        match (r, prop_head(old(rd).rest(), sizes)) {
            (Some(v), Some(p)) => v == p.0 && final(rd).rest() == p.1,
            (None, None) => true,
            _ => false,
        },
{
    if pass_int(rd).is_none() {
        return None;
    }
    let form: i32 = match pass_int(rd) {
        Some(v) => v,
        None => {
            return None;
        },
    };
    if pass_int(rd).is_none() {
        return None;
    }
    if !pass_text(rd) {
        return None;
    }
    if !pass(rd, size_of_element(sizes)) {
        return None;
    }
    Some(form)
}

/// Passes over a property. Properties that are nested too deep are refused.
pub fn skip_indexed_probe_prop(
    rd: &mut StreamReader,
    sizes: LayoutSizes,
    forms: ListForms,
    depth: usize,
) -> (r: bool)
    requires
        old(rd).wf(),
        sizes.element_capacity <= 0xffff,
        depth <= MAX_DEPTH,
    ensures
        final(rd).wf(),
        final(rd).data == old(rd).data,
        r ==> behind_prop(old(rd).rest(), sizes, forms, depth as int) == Some(final(rd).rest()),
        !r ==> behind_prop(old(rd).rest(), sizes, forms, depth as int) is None,
    decreases MAX_DEPTH - depth,
{
    if depth >= MAX_DEPTH {
        return false;
    }
    let form: i32 = match pass_prop_head(rd, sizes) {
        Some(v) => v,
        None => {
            return false;
        },
    };
    let ghost b1 = rd.rest();
    let n: usize = match pass_count(rd, size_of_element(sizes) + 24) {
        Some(n) => n,
        None => {
            return false;
        },
    };
    let ghost b = rd.rest();
    let ghost first = old(rd).rest();
    let mut i: usize = 0;
    while i < n
        invariant
            i <= n,
            rd.wf(),
            rd.data == old(rd).data,
            first == old(rd).rest(),
            sizes.element_capacity <= 0xffff,
            depth < MAX_DEPTH,
            prop_head(first, sizes) == Some((form as int, b1)),
            count_front(b1, element_size(sizes) + 24) == Some((n as int, b)),
            behind_props(b, sizes, forms, i as int, depth + 1) == Some(rd.rest()),
        decreases n - i,
    {
        if !skip_indexed_probe_prop(rd, sizes, forms, depth + 1) {
            proof {
                lemma_props_fail(b, sizes, forms, i + 1, n as int, depth + 1);
            }
            return false;
        }
        i = i + 1;
    }
    if pass_int(rd).is_none() {
        return false;
    }
    pass_items(rd, form, forms)
}

/// Passes over a process.
pub fn skip_indexed_probe_proc(rd: &mut StreamReader, sizes: LayoutSizes, forms: ListForms) -> (r:
    bool)
    requires
        old(rd).wf(),
        sizes.element_capacity <= 0xffff,
    ensures
        final(rd).wf(),
        final(rd).data == old(rd).data,
        r ==> behind_proc(old(rd).rest(), sizes, forms) == Some(final(rd).rest()),
        !r ==> behind_proc(old(rd).rest(), sizes, forms) is None,
{
    if !pass(rd, 8 + size_of_element(sizes)) {
        return false;
    }
    let n: usize = match pass_count(rd, size_of_element(sizes) + 24) {
        Some(n) => n,
        None => {
            return false;
        },
    };
    let ghost b = rd.rest();
    let ghost first = old(rd).rest();
    let mut i: usize = 0;
    while i < n
        invariant
            i <= n,
            rd.wf(),
            rd.data == old(rd).data,
            first == old(rd).rest(),
            sizes.element_capacity <= 0xffff,
            behind(first, 8 + element_size(sizes)) is Some,
            count_front(behind(first, 8 + element_size(sizes))->0, element_size(sizes) + 24)
                == Some((n as int, b)),
            behind_props(b, sizes, forms, i as int, 0) == Some(rd.rest()),
        decreases n - i,
    {
        if !skip_indexed_probe_prop(rd, sizes, forms, 0) {
            proof {
                lemma_props_fail(b, sizes, forms, i + 1, n as int, 0);
            }
            return false;
        }
        i = i + 1;
    }
    pass(rd, sizes.proc_trailer_bytes)
}

fn pass_position(rd: &mut StreamReader) -> (r: bool)
    requires
        old(rd).wf(),
    ensures
        final(rd).wf(),
        final(rd).data == old(rd).data,
        r ==> behind_position(old(rd).rest()) == Some(final(rd).rest()),
        !r ==> behind_position(old(rd).rest()) is None,
{
    match pass_int(rd) {
        Some(v) => {
            if v < 0 {
                return false;
            }
        },
        None => {
            return false;
        },
    }
    match pass_int(rd) {
        Some(v) => {
            if v < 0 {
                return false;
            }
        },
        None => {
            return false;
        },
    }
    match pass_int(rd) {
        Some(v) => v >= 0,
        None => false,
    }
}

/// Passes over the front of a save. Where that is possible, the bytes behind it
/// are to be checked as the rest of the layout.
pub fn probe_indexed_local_stream(
    rd: &mut StreamReader,
    sizes: LayoutSizes,
    forms: ListForms,
    buttons: usize,
) -> (r: bool)
    requires
        old(rd).wf(),
        sizes.element_capacity <= 0xffff,
        sizes.settings_bytes + buttons <= usize::MAX,
    ensures
        final(rd).wf(),
        final(rd).data == old(rd).data,
        r ==> behind_front(old(rd).rest(), sizes, forms, buttons as int) == Some(final(rd).rest()),
        !r ==> behind_front(old(rd).rest(), sizes, forms, buttons as int) is None,
{
    let ghost first = old(rd).rest();
    if !pass_position(rd) {
        return false;
    }
    let ghost b1 = rd.rest();
    if !skip_indexed_probe_proc(rd, sizes, forms) {
        return false;
    }
    let ghost b2 = rd.rest();
    let n: usize = match pass_count(rd, size_of_element(sizes) + 18) {
        Some(n) => n,
        None => {
            return false;
        },
    };
    let ghost b = rd.rest();
    let mut i: usize = 0;
    while i < n
        invariant
            i <= n,
            rd.wf(),
            rd.data == old(rd).data,
            first == old(rd).rest(),
            sizes.element_capacity <= 0xffff,
            behind_position(first) == Some(b1),
            behind_proc(b1, sizes, forms) == Some(b2),
            count_front(b2, element_size(sizes) + 18) == Some((n as int, b)),
            behind_procs(b, sizes, forms, i as int) == Some(rd.rest()),
        decreases n - i,
    {
        if !skip_indexed_probe_proc(rd, sizes, forms) {
            proof {
                lemma_procs_fail(b, sizes, forms, i + 1, n as int);
            }
            return false;
        }
        i = i + 1;
    }
    if !pass(rd, 3 * size_of_element(sizes) + 16) {
        return false;
    }
    if !pass_text(rd) {
        return false;
    }
    pass(rd, sizes.settings_bytes + buttons)
}

/// The layouts that name scenes by their numbers.
#[derive(Debug, Clone, Copy, PartialEq, Eq, Structural)]
pub enum IndexedLayout {
    ShortElements,
    Indexed,
}

/// The layout of a save by which layouts fit it. The older one comes first.
pub fn detect_indexed_local_layout(short_fits: bool, indexed_fits: bool) -> (r: Option<
    IndexedLayout,
>)
    ensures
        r == (if short_fits {
            Some(IndexedLayout::ShortElements)
        } else if indexed_fits {
            Some(IndexedLayout::Indexed)
        } else {
            None
        }),
{
    if short_fits {
        Some(IndexedLayout::ShortElements)
    } else if indexed_fits {
        Some(IndexedLayout::Indexed)
    } else {
        None
    }
}

/// The name of the scene with a saved number, where there is one.
pub fn indexed_scene_name(metadata: &SceneMetadata, scene_no: i32) -> (r: Option<String>)
    ensures
        match r {
            Some(name) => 0 <= scene_no < metadata.rows@.len() && name@
                == metadata.rows@[scene_no as int].0@,
            None => scene_no < 0 || scene_no >= metadata.rows@.len(),
        },
{
    if scene_no < 0 || scene_no as usize >= metadata.rows.len() {
        return None;
    }
    Some(metadata.rows[scene_no as usize].0.clone())
}

/// A list of numbers takes four bytes for its count and four for each number. What is no list
/// takes nothing.
pub proof fn lists_take_the_room_of_their_items(b: Seq<u8>, form: int, forms: ListForms)
    ensures
        form == forms.int_list && b.len() >= 4 && bytes::i32_at(b, 0) >= 0 && b.len() >= 4 + 4
            * bytes::i32_at(b, 0) ==> behind_items(b, form, forms) == Some(
            b.skip(4 + 4 * bytes::i32_at(b, 0)),
        ),
        form == forms.int_list && b.len() >= 4 && (bytes::i32_at(b, 0) < 0 || b.len() < 4 + 4
            * bytes::i32_at(b, 0)) ==> behind_items(b, form, forms) is None,
        form != forms.int_list && form != forms.str_list ==> behind_items(b, form, forms) == Some(b),
{
    reveal(stream::i32_of);
    reveal(stream::raw_of);
    if b.len() >= 4 {
        let n: int = bytes::i32_at(b, 0);
        let rest = b.skip(4);
        if 0 <= n && b.len() >= 4 + 4 * n {
            assert(n <= rest.len() as int / 4);
            assert(rest.skip(4 * n) =~= b.skip(4 + 4 * n));
        }
    }
}

/// A position is three words, none of them below zero.
pub proof fn positions_are_three_words(b: Seq<u8>)
    ensures
        behind_position(b) is Some <==> b.len() >= 12 && bytes::i32_at(b, 0) >= 0 && bytes::i32_at(
            b,
            4,
        ) >= 0 && bytes::i32_at(b, 8) >= 0,
        behind_position(b) is Some ==> behind_position(b) == Some(b.skip(12)),
{
    reveal(stream::i32_of);
    if b.len() >= 8 {
        assert(b.skip(4).skip(4) =~= b.skip(8));
    }
    if b.len() >= 12 {
        assert(b.skip(8).skip(4) =~= b.skip(12));
    }
}

/// A procedure without arguments takes its two words, its element, the word that counts the
/// arguments, and what stands behind them.
pub proof fn procedures_without_arguments_have_a_fixed_size(
    b: Seq<u8>,
    sizes: LayoutSizes,
    forms: ListForms,
)
    requires
        ({
            let head = 8 + 4 * (sizes.element_capacity + 1);
            &&& b.len() >= head + 4 + sizes.proc_trailer_bytes
            &&& bytes::i32_at(b, head) == 0
        }),
    ensures
        behind_proc(b, sizes, forms) == Some(
            b.skip(8 + 4 * (sizes.element_capacity + 1) + 4 + sizes.proc_trailer_bytes),
        ),
{
    reveal(stream::i32_of);
    reveal(stream::raw_of);
    let head: int = 8 + 4 * (sizes.element_capacity + 1);
    let b1 = b.skip(head);
    assert(element_size(sizes) + 8 == head);
    assert(bytes::i32_at(b1, 0) == 0);
    let b2 = b1.skip(4);
    assert(0 <= b2.len() as int / (element_size(sizes) + 24)) by (nonlinear_arith)
        requires
            element_size(sizes) + 24 > 0,
            b2.len() >= 0,
    ;
    assert(b2.skip(sizes.proc_trailer_bytes as int) =~= b.skip(
        head + 4 + sizes.proc_trailer_bytes,
    ));
}

} // verus!
