//! Lists of numbers, whole or in packed fields.

use vstd::prelude::*;
use crate::runtime::context;
use crate::runtime::context::{
    configured_count_info, CommandContext, FormError, Globals, Ids, IntListOps, Tables,
};
use crate::runtime::forms::prop_access;
use crate::runtime::forms::prop_access::{current_vm_meta, find_path, script_args};
use crate::runtime::value;
use crate::runtime::value::{arg_i64_or, push_int, Value};

verus! {

broadcast use vstd::std_specs::hash::group_hash_axioms;

/// The widths that a field can have.
pub open spec fn width_ok(width: int) -> bool {
    width == 1 || width == 2 || width == 4 || width == 8 || width == 16 || width == 32
}

/// Whether the field `index` lies inside a list of `len` words.
pub open spec fn located(len: int, width: int, index: int) -> bool {
    &&& index >= 0
    &&& width_ok(width)
    &&& index * width <= u64::MAX
    &&& index * width / 32 < len
}

/// The low `width` bits of `v`, for fields below a whole word.
pub open spec fn low_bits(v: u32, width: u32) -> u32 {
    v & ((1u32 << width) - 1) as u32
}

/// A word with the field at `shift` replaced.
pub open spec fn with_field(raw: u32, width: u32, shift: u32, v: u32) -> u32 {
    (raw & !((((1u32 << width) - 1) as u32) << shift)) | (low_bits(v, width) << shift)
}

/// The bits of a stored number.
pub open spec fn bits(word: i64) -> u32 {
    word as i32 as u32
}

/// The number that a field holds: all 32 bits with their sign, fewer without.
/// A field outside the list reads as 0.
pub open spec fn field(list: Seq<i64>, width: u32, index: int) -> i64 {
    if !located(list.len() as int, width as int, index) {
        0
    } else {
        let word = list[index * width / 32];
        if width == 32 {
            word as i32 as i64
        } else {
            low_bits(bits(word) >> ((index * width % 32) as u32), width) as i64
        }
    }
}

/// The list after a field has been set. A field outside it is not set.
pub open spec fn field_set(list: Seq<i64>, width: u32, index: int, v: i64) -> Seq<i64> {
    if !located(list.len() as int, width as int, index) {
        list
    } else {
        let word = index * width / 32;
        if width == 32 {
            list.update(word, v as i32 as i64)
        } else {
            list.update(
                word,
                with_field(
                    bits(list[word]),
                    width,
                    (index * width % 32) as u32,
                    v as u32,
                ) as i32 as i64,
            )
        }
    }
}

/// What a field of `width` bits keeps of `v`.
pub open spec fn kept(width: u32, v: i64) -> i64 {
    if width == 32 {
        v as i32 as i64
    } else {
        low_bits(v as u32, width) as i64
    }
}

proof fn lemma_scaled(index: int, width: int)
    requires
        index >= 0,
        width_ok(width),
    ensures
        0 <= index * width,
        width == 32 ==> index * width / 32 == index,
        width == 1 ==> index * width == index,
        width == 2 ==> index * width == 2 * index,
        width == 4 ==> index * width == 4 * index,
        width == 8 ==> index * width == 8 * index,
        width == 16 ==> index * width == 16 * index,
        width == 32 ==> index * width == 32 * index,
        (index * width) % 32 + width <= 32,
{
    if width == 1 {
        assert(index * width == 1 * index) by (nonlinear_arith)
            requires
                width == 1,
        ;
        assert((1 * index) % 32 + 1 <= 32);
    } else if width == 2 {
        assert(index * width == 2 * index) by (nonlinear_arith)
            requires
                width == 2,
        ;
        assert((2 * index) % 32 + 2 <= 32);
    } else if width == 4 {
        assert(index * width == 4 * index) by (nonlinear_arith)
            requires
                width == 4,
        ;
        assert((4 * index) % 32 + 4 <= 32);
    } else if width == 8 {
        assert(index * width == 8 * index) by (nonlinear_arith)
            requires
                width == 8,
        ;
        assert((8 * index) % 32 + 8 <= 32);
    } else if width == 16 {
        assert(index * width == 16 * index) by (nonlinear_arith)
            requires
                width == 16,
        ;
        assert((16 * index) % 32 + 16 <= 32);
    } else {
        assert(index * width == 32 * index) by (nonlinear_arith)
            requires
                width == 32,
        ;
        assert((32 * index) % 32 == 0);
        assert((32 * index) / 32 == index);
    }
}

proof fn lemma_field_same(raw: u32, width: u32, shift: u32, v: u32)
    requires
        width == 1 || width == 2 || width == 4 || width == 8 || width == 16,
        shift + width <= 32,
    ensures
        low_bits(with_field(raw, width, shift, v) >> shift, width) == low_bits(v, width),
{
    assert(((((raw & !((((1u32 << width) - 1) as u32) << shift)) | ((v & ((1u32 << width) - 1) as u32)
        << shift)) >> shift) & ((1u32 << width) - 1) as u32) == (v & ((1u32 << width) - 1) as u32))
        by (bit_vector)
        requires
            width == 1 || width == 2 || width == 4 || width == 8 || width == 16,
            shift + width <= 32,
    ;
}

proof fn lemma_field_other(raw: u32, width: u32, shift: u32, other: u32, v: u32)
    requires
        width == 1 || width == 2 || width == 4 || width == 8 || width == 16,
        shift + width <= 32,
        other + width <= 32,
        shift + width <= other || other + width <= shift,
    ensures
        low_bits(with_field(raw, width, shift, v) >> other, width) == low_bits(raw >> other, width),
{
    assert(((((raw & !((((1u32 << width) - 1) as u32) << shift)) | ((v & ((1u32 << width) - 1) as u32)
        << shift)) >> other) & ((1u32 << width) - 1) as u32) == ((raw >> other) & ((1u32 << width)
        - 1) as u32)) by (bit_vector)
        requires
            width == 1 || width == 2 || width == 4 || width == 8 || width == 16,
            shift + width <= 32,
            other + width <= 32,
            shift + width <= other || other + width <= shift,
    ;
}

proof fn lemma_signed_bits(v: u32)
    ensures
        (v as i32 as i64) as i32 as u32 == v,
{
    assert((v as i32 as i64) as i32 as u32 == v) by (bit_vector);
}

proof fn lemma_signed_twice(v: i64)
    ensures
        (v as i32 as i64) as i32 as i64 == v as i32 as i64,
{
    assert((v as i32 as i64) as i32 as i64 == v as i32 as i64) by (bit_vector);
}

/// A field reads as what it keeps of the number that was set.
pub proof fn get_after_set(list: Seq<i64>, width: u32, index: int, v: i64)
    requires
        located(list.len() as int, width as int, index),
    ensures
        field(field_set(list, width, index, v), width, index) == kept(width, v),
{
    lemma_scaled(index, width as int);
    let word = index * width / 32;
    if width == 32 {
        lemma_signed_twice(v);
    } else {
        let shift = (index * width % 32) as u32;
        lemma_field_same(bits(list[word]), width, shift, v as u32);
        lemma_signed_bits(with_field(bits(list[word]), width, shift, v as u32));
    }
}

/// Setting a field leaves every other field of the same width as it was.
pub proof fn set_leaves_other_fields(list: Seq<i64>, width: u32, index: int, v: i64, other: int)
    requires
        other != index,
    ensures
        field(field_set(list, width, index, v), width, other) == field(list, width, other),
{
    let len = list.len() as int;
    if located(len, width as int, index) && located(len, width as int, other) {
        lemma_scaled(index, width as int);
        lemma_scaled(other, width as int);
        let word = index * width / 32;
        if width != 32 && word == other * width / 32 {
            let shift = (index * width % 32) as u32;
            let place = (other * width % 32) as u32;
            lemma_field_other(bits(list[word]), width, shift, place, v as u32);
            lemma_signed_bits(with_field(bits(list[word]), width, shift, v as u32));
        }
    }
}

/// A field outside the list reads as 0, and setting it changes nothing.
pub proof fn outside_fields_are_inert(list: Seq<i64>, width: u32, index: int, v: i64)
    requires
        !located(list.len() as int, width as int, index),
    ensures
        field(list, width, index) == 0,
        field_set(list, width, index, v) == list,
{
}

proof fn lemma_located_in_size(len: int, width: int, index: int)
    requires
        width_ok(width),
        0 <= len,
        len * 32 <= i64::MAX,
        len * 32 <= usize::MAX,
    ensures
        0 <= field_count(len, width) <= len * 32,
        located(len, width, index) <==> 0 <= index < field_count(len, width),
{
    if index >= 0 {
        lemma_scaled(index, width);
    }
    let per_word = 32int / width;
    assert(width == 1 ==> per_word == 32);
    assert(width == 2 ==> per_word == 16);
    assert(width == 4 ==> per_word == 8);
    assert(width == 8 ==> per_word == 4);
    assert(width == 16 ==> per_word == 2);
    assert(width == 32 ==> per_word == 1);
    assert(len * per_word <= len * 32) by (nonlinear_arith)
        requires
            0 <= len,
            per_word <= 32,
    ;
    assert(per_word == 32 ==> len * per_word == 32 * len) by (nonlinear_arith);
    assert(per_word == 16 ==> len * per_word == 16 * len) by (nonlinear_arith);
    assert(per_word == 8 ==> len * per_word == 8 * len) by (nonlinear_arith);
    assert(per_word == 4 ==> len * per_word == 4 * len) by (nonlinear_arith);
    assert(per_word == 2 ==> len * per_word == 2 * len) by (nonlinear_arith);
    assert(per_word == 1 ==> len * per_word == len) by (nonlinear_arith);
}

/// The low bits of a wide number.
pub open spec fn masked(v: i64, width: u32) -> i64 {
    v & ((1i64 << width) - 1) as i64
}

proof fn lemma_kept_is_masked(v: i64, width: u32)
    requires
        width == 1 || width == 2 || width == 4 || width == 8 || width == 16,
    ensures
        kept(width, v) == masked(v, width),
{
    assert((v as u32 & ((1u32 << width) - 1) as u32) as i64 == v & ((1i64 << width) - 1) as i64)
        by (bit_vector)
        requires
            width == 1 || width == 2 || width == 4 || width == 8 || width == 16,
    ;
}

/// A set reads back and touches no other field where the place lies below the
/// size of the list, and does nothing elsewhere. The size is counted in fields,
/// and has to fit the machine's numbers.
pub proof fn packed_access_is_exact(list: Seq<i64>, width: u32, index: i64, v: i64)
    requires
        width_ok(width as int),
        list.len() * 32 <= i64::MAX,
        list.len() * 32 <= usize::MAX,
    ensures
        ({
            let size = field_count(list.len() as int, width as int) as i64;
            let after = field_set(list, width, index as int, v);
            if 0 <= index < size {
                &&& field(after, width, index as int) == if width == 32 {
                    v as i32 as i64
                } else {
                    masked(v, width)
                }
                &&& forall|j: int|
                    j != index ==> #[trigger] field(after, width, j) == field(list, width, j)
            } else {
                after == list && field(after, width, index as int) == 0
            }
        }),
{
    lemma_located_in_size(list.len() as int, width as int, index as int);
    if located(list.len() as int, width as int, index as int) {
        get_after_set(list, width, index as int, v);
        if width != 32 {
            lemma_kept_is_masked(v, width);
        }
        let after = field_set(list, width, index as int, v);
        assert forall|j: int| j != index implies #[trigger] field(after, width, j) == field(
            list,
            width,
            j,
        ) by {
            set_leaves_other_fields(list, width, index as int, v, j);
        }
    }
}

fn is_width(width: u32) -> (r: bool)
    ensures
        r == width_ok(width as int),
{
    width == 1 || width == 2 || width == 4 || width == 8 || width == 16 || width == 32
}

fn bit_location(list_len: usize, width: u32, index: i64) -> (r: Option<(usize, u32)>)
    ensures
        match r {
            Some((word, shift)) => {
                &&& located(list_len as int, width as int, index as int)
                &&& word == index as int * width as int / 32
                &&& shift == index as int * width as int % 32
                &&& word < list_len
                &&& shift + width <= 32
            },
            None => !located(list_len as int, width as int, index as int),
        },
{
    if index < 0 || !is_width(width) {
        return None;
    }
    proof {
        lemma_scaled(index as int, width as int);
    }
    match (index as u64).checked_mul(width as u64) {
        Some(bit_index) => {
            let word: u64 = bit_index / 32;
            if word >= list_len as u64 {
                None
            } else {
                Some((word as usize, (bit_index % 32) as u32))
            }
        },
        None => None,
    }
}

/// Reads a field.
pub fn bit_get(_form_id: u32, list: &[i64], width: u32, index: i64) -> (r: i64)
    ensures
        r == field(list@, width, index as int),
{
    match bit_location(list.len(), width, index) {
        Some((word, shift)) => {
            if width == 32 {
                return list[word] as i32 as i64;
            }
            proof {
                lemma_one_shifted(width);
            }
            let mask: u32 = (1u32 << width) - 1;
            (((list[word] as i32 as u32) >> shift) & mask) as i64
        },
        None => 0,
    }
}

proof fn lemma_one_shifted(width: u32)
    requires
        width < 32,
    ensures
        (1u32 << width) >= 1,
{
    assert((1u32 << width) >= 1) by (bit_vector)
        requires
            width < 32,
    ;
}

/// Sets a field.
pub fn bit_set(_form_id: u32, list: &mut Vec<i64>, width: u32, index: i64, value: i64)
    ensures
        final(list)@ == field_set(old(list)@, width, index as int, value),
        final(list)@.len() == old(list)@.len(),
{
    match bit_location(list.len(), width, index) {
        Some((word, shift)) => {
            if width == 32 {
                list.set(word, value as i32 as i64);
                return;
            }
            proof {
                lemma_one_shifted(width);
            }
            let value_mask: u32 = (1u32 << width) - 1;
            let field_mask: u32 = value_mask << shift;
            let raw: u32 = list[word] as i32 as u32;
            let next: u32 = (raw & !field_mask) | (((value as u32) & value_mask) << shift);
            list.set(word, next as i32 as i64);
        },
        None => {},
    }
}

/// How many fields a list holds.
pub open spec fn field_count(words: int, width: int) -> int {
    let n = words * (32int / width);
    if n > usize::MAX {
        usize::MAX as int
    } else {
        n
    }
}

/// How many fields of `width` bits a list of `storage_words` words holds.
pub fn logical_size(storage_words: usize, width: u32) -> (n: i64)
    requires
        width > 0,
    ensures
        n == field_count(storage_words as int, width as int) as i64,
{
    let per_word: usize = 32 / width as usize;
    proof {
        assert(storage_words as int * per_word as int >= 0) by (nonlinear_arith);
    }
    match storage_words.checked_mul(per_word) {
        Some(n) => n as i64,
        None => usize::MAX as i64,
    }
}

/// What an element path of a number list names.
#[derive(Debug, Clone, Copy, PartialEq, Eq, Structural)]
pub enum IntListTarget {
    Root,
    Index { width: u32, index: i64 },
    Command { width: u32, op: i32 },
}

/// The width that an element number chooses.
pub open spec fn selected_width(ops: IntListOps, op: i32) -> Option<u32> {
    if op == ops.bit[0] || op == ops.bit[1] {
        Some(1u32)
    } else if op == ops.bit2[0] || op == ops.bit2[1] {
        Some(2u32)
    } else if op == ops.bit4[0] || op == ops.bit4[1] {
        Some(4u32)
    } else if op == ops.bit8[0] || op == ops.bit8[1] {
        Some(8u32)
    } else if op == ops.bit16[0] || op == ops.bit16[1] {
        Some(16u32)
    } else {
        None
    }
}

fn selector_width(ops: &IntListOps, op: i32) -> (r: Option<u32>)
    ensures
        r == selected_width(*ops, op),
{
    if op == ops.bit[0] || op == ops.bit[1] {
        Some(1)
    } else if op == ops.bit2[0] || op == ops.bit2[1] {
        Some(2)
    } else if op == ops.bit4[0] || op == ops.bit4[1] {
        Some(4)
    } else if op == ops.bit8[0] || op == ops.bit8[1] {
        Some(8)
    } else if op == ops.bit16[0] || op == ops.bit16[1] {
        Some(16)
    } else {
        None
    }
}

/// What a path names behind the place `pos`.
pub open spec fn target_behind(ids: Ids, chain: Seq<i32>, pos: int, width: u32) -> Option<
    IntListTarget,
> {
    if pos >= chain.len() {
        Some(IntListTarget::Root)
    } else if chain[pos] == ids.elm_array || chain[pos] == ids.fixed_array {
        if pos + 1 < chain.len() {
            Some(IntListTarget::Index { width, index: chain[pos + 1] as i64 })
        } else {
            None
        }
    } else {
        Some(IntListTarget::Command { width, op: chain[pos] })
    }
}

/// What a path names: the list, one field of it, or a command. A width may
/// stand before the field or the command.
pub open spec fn target_of(ids: Ids, chain: Seq<i32>) -> Option<IntListTarget> {
    if chain.len() == 0 {
        None
    } else if chain.len() == 1 {
        Some(IntListTarget::Root)
    } else {
        match selected_width(ids.int_list, chain[1]) {
            Some(width) => target_behind(ids, chain, 2, width),
            None => target_behind(ids, chain, 1, 32),
        }
    }
}

fn parse_target(ids: &Ids, chain: &Vec<i32>) -> (r: Option<IntListTarget>)
    ensures
        r == target_of(*ids, chain@),
        r matches Some(IntListTarget::Index { width, .. }) ==> width_ok(width as int),
        r matches Some(IntListTarget::Command { width, .. }) ==> width_ok(width as int),
{
    if chain.len() == 0 {
        return None;
    }
    if chain.len() == 1 {
        return Some(IntListTarget::Root);
    }
    let mut pos: usize = 1;
    let mut width: u32 = 32;
    if let Some(selected) = selector_width(&ids.int_list, chain[pos]) {
        width = selected;
        pos = 2;
    }
    if pos >= chain.len() {
        return Some(IntListTarget::Root);
    }
    let op: i32 = chain[pos];
    if op == ids.elm_array || op == ids.fixed_array {
        if pos + 1 < chain.len() {
            Some(IntListTarget::Index { width, index: chain[pos + 1] as i64 })
        } else {
            None
        }
    } else {
        Some(IntListTarget::Command { width, op })
    }
}

/// Whether a list is one of the flags of a save, and whether of all saves.
pub open spec fn fixed_kind(ids: Ids, form_id: u32) -> Option<bool> {
    if ids.local_int_lists@.contains(form_id) {
        Some(false)
    } else if ids.global_int_lists@.contains(form_id) {
        Some(true)
    } else {
        None
    }
}

/// The fixed length of a list.
pub open spec fn fixed_length(ids: Ids, tables: Tables, form_id: u32) -> Option<int> {
    match fixed_kind(ids, form_id) {
        Some(global) => Some(context::flag_length(tables, global)),
        None => None,
    }
}

fn kind_of(ids: &Ids, form_id: u32) -> (r: Option<bool>)
    ensures
        r == fixed_kind(*ids, form_id),
{
    let mut i: usize = 0;
    while i < 7
        invariant
            i <= 7,
            forall|k: int| 0 <= k < i ==> ids.local_int_lists@[k] != form_id,
        decreases 7 - i,
    {
        if ids.local_int_lists[i] == form_id {
            proof {
                assert(ids.local_int_lists@[i as int] == form_id);
            }
            return Some(false);
        }
        i = i + 1;
    }
    let mut j: usize = 0;
    while j < 2
        invariant
            j <= 2,
            !ids.local_int_lists@.contains(form_id),
            forall|k: int| 0 <= k < j ==> ids.global_int_lists@[k] != form_id,
        decreases 2 - j,
    {
        if ids.global_int_lists[j] == form_id {
            proof {
                assert(ids.global_int_lists@[j as int] == form_id);
            }
            return Some(true);
        }
        j = j + 1;
    }
    None
}

/// The fixed length of a list.
pub fn fixed_default_len(ctx: &CommandContext, form_id: u32) -> (r: Option<usize>)
    requires
        ctx.wf(),
    ensures
        match r {
            Some(n) => fixed_length(ctx.ids, ctx.tables, form_id) == Some(n as int),
            None => fixed_length(ctx.ids, ctx.tables, form_id) is None,
        },
{
    match kind_of(&ctx.ids, form_id) {
        Some(global) => Some(configured_count_info(&ctx.tables, global).0),
        None => None,
    }
}

/// Whether the configuration gives the length of a list.
pub open spec fn length_is_explicit(ids: Ids, tables: Tables, form_id: u32) -> bool {
    match fixed_kind(ids, form_id) {
        Some(global) => context::flag_count(tables, global) is Some,
        None => false,
    }
}

/// `list` with zeros behind it up to the length `n`.
pub open spec fn padded(list: Seq<i64>, n: int) -> Seq<i64> {
    if list.len() >= n {
        list
    } else {
        list + Seq::new((n - list.len()) as nat, |i: int| 0i64)
    }
}

/// `list` at the length `n`: cut, or with zeros behind it.
pub open spec fn resized(list: Seq<i64>, n: int) -> Seq<i64> {
    if list.len() >= n {
        list.take(n)
    } else {
        padded(list, n)
    }
}

/// The numbers of a list. A fixed one never has fewer than its length.
pub open spec fn words_of(ids: Ids, tables: Tables, globals: Globals, form_id: u32) -> Seq<i64> {
    let stored = if globals.int_lists@.contains_key(form_id) {
        globals.int_lists@[form_id]@
    } else {
        Seq::empty()
    };
    match fixed_length(ids, tables, form_id) {
        Some(n) => padded(stored, n),
        None => stored,
    }
}

/// How many words a list needs for the field `index`.
pub open spec fn words_needed(width: int, index: int) -> Option<int> {
    if index < 0 || !width_ok(width) || (index + 1) * width + 31 > u64::MAX {
        None
    } else {
        Some(((index + 1) * width + 31) / 32)
    }
}

/// The list that a command works on. Where the configuration leaves the
/// length of a fixed list open, the list grows to hold the field, up to 10000
/// words.
pub open spec fn words_for(
    ids: Ids,
    tables: Tables,
    globals: Globals,
    form_id: u32,
    width: u32,
    index: int,
) -> Seq<i64> {
    let words = words_of(ids, tables, globals, form_id);
    if fixed_kind(ids, form_id) is None || length_is_explicit(ids, tables, form_id) {
        words
    } else {
        match words_needed(width as int, index) {
            Some(n) => if n <= 10000 {
                padded(words, n)
            } else {
                words
            },
            None => words,
        }
    }
}

fn pad(list: &mut Vec<i64>, n: usize)
    ensures
        final(list)@ == padded(old(list)@, n as int),
{
    if list.len() < n {
        list.resize(n, 0);
        proof {
            assert(list@ =~= padded(old(list)@, n as int));
        }
    }
}

/// Takes the numbers of a list out of the state.
fn take_list(ctx: &mut CommandContext, form_id: u32) -> (list: Vec<i64>)
    requires
        old(ctx).wf(),
    ensures
        list@ == words_of(old(ctx).ids, old(ctx).tables, old(ctx).globals, form_id),
        final(ctx).globals.int_lists@ == old(ctx).globals.int_lists@.remove(form_id),
        only_lists_change(*old(ctx), *final(ctx)),
        final(ctx).stack == old(ctx).stack,
{
    let fixed: Option<usize> = fixed_default_len(ctx, form_id);
    let mut list: Vec<i64> = match ctx.globals.int_lists.remove(&form_id) {
        Some(list) => list,
        None => Vec::new(),
    };
    if let Some(n) = fixed {
        pad(&mut list, n);
    }
    list
}

/// Whether nothing but the number lists and the stack differs.
pub open spec fn only_lists_change(before: CommandContext, after: CommandContext) -> bool {
    after == (CommandContext {
        stack: after.stack,
        globals: (Globals { int_lists: after.globals.int_lists, ..before.globals }),
        ..before
    })
}

fn explicit_length(ctx: &CommandContext, form_id: u32) -> (r: bool)
    requires
        ctx.wf(),
    ensures
        r == length_is_explicit(ctx.ids, ctx.tables, form_id),
{
    match kind_of(&ctx.ids, form_id) {
        Some(global) => configured_count_info(&ctx.tables, global).1,
        None => false,
    }
}

fn required_storage_words(width: u32, index: i64) -> (r: Option<usize>)
    ensures
        match r {
            Some(n) => words_needed(width as int, index as int) == Some(n as int),
            None => match words_needed(width as int, index as int) {
                Some(n) => n > usize::MAX,
                None => true,
            },
        },
{
    if index < 0 || !is_width(width) {
        return None;
    }
    proof {
        lemma_scaled(index + 1, width as int);
    }
    match (index as u64 + 1).checked_mul(width as u64) {
        Some(b) => match b.checked_add(31) {
            Some(c) => {
                let words: u64 = c / 32;
                if words <= usize::MAX as u64 {
                    Some(words as usize)
                } else {
                    None
                }
            },
            None => None,
        },
        None => None,
    }
}

/// Takes a list out of the state, grown for the field `index`.
fn take_list_for(ctx: &mut CommandContext, form_id: u32, width: u32, index: i64) -> (list: Vec<i64>)
    requires
        old(ctx).wf(),
    ensures
        list@ == words_for(
            old(ctx).ids,
            old(ctx).tables,
            old(ctx).globals,
            form_id,
            width,
            index as int,
        ),
        final(ctx).globals.int_lists@ == old(ctx).globals.int_lists@.remove(form_id),
        only_lists_change(*old(ctx), *final(ctx)),
        final(ctx).stack == old(ctx).stack,
{
    let fixed: bool = kind_of(&ctx.ids, form_id).is_some();
    let explicit: bool = explicit_length(ctx, form_id);
    let mut list = take_list(ctx, form_id);
    if fixed && !explicit {
        if let Some(required) = required_storage_words(width, index) {
            if required <= 10000 {
                pad(&mut list, required);
            }
        }
    }
    list
}

fn put_list(ctx: &mut CommandContext, form_id: u32, list: Vec<i64>)
    ensures
        final(ctx).globals.int_lists@ == old(ctx).globals.int_lists@.insert(form_id, list),
        only_lists_change(*old(ctx), *final(ctx)),
        final(ctx).stack == old(ctx).stack,
{
    let _old: Option<Vec<i64>> = ctx.globals.int_lists.insert(form_id, list);
}

/// Makes a list ready for direct access to the number at `index`.
pub fn ensure_fixed_direct_index(ctx: &mut CommandContext, form_id: u32, index: usize)
    requires
        old(ctx).wf(),
    ensures
        stored_list(
            *old(ctx),
            *final(ctx),
            form_id,
            if index <= i64::MAX {
                words_for(
                    old(ctx).ids,
                    old(ctx).tables,
                    old(ctx).globals,
                    form_id,
                    32,
                    index as int,
                )
            } else {
                words_of(old(ctx).ids, old(ctx).tables, old(ctx).globals, form_id)
            },
        ),
        only_lists_change(*old(ctx), *final(ctx)),
        final(ctx).stack == old(ctx).stack,
{
    let list = if index as u64 <= 0x7fff_ffff_ffff_ffff {
        take_list_for(ctx, form_id, 32, index as i64)
    } else {
        take_list(ctx, form_id)
    };
    put_list(ctx, form_id, list);
    proof {
        lemma_stored(*old(ctx), *ctx, form_id, list);
    }
}

/// Whether the list `form_id` holds `words` now and every other list is as it
/// was.
pub open spec fn stored_list(
    before: CommandContext,
    after: CommandContext,
    form_id: u32,
    words: Seq<i64>,
) -> bool {
    &&& after.globals.int_lists@.dom() == before.globals.int_lists@.dom().insert(form_id)
    &&& after.globals.int_lists@[form_id]@ == words
    &&& forall|k: u32|
        k != form_id && before.globals.int_lists@.contains_key(k)
            ==> #[trigger] after.globals.int_lists@[k] == before.globals.int_lists@[k]
}

proof fn lemma_stored(
    before: CommandContext,
    after: CommandContext,
    form_id: u32,
    list: Vec<i64>,
)
    requires
        after.globals.int_lists@ == before.globals.int_lists@.remove(form_id).insert(form_id, list),
    ensures
        stored_list(before, after, form_id, list@),
{
    assert(after.globals.int_lists@.dom() =~= before.globals.int_lists@.dom().insert(form_id));
}

/// The list after the fields from `start` up to, not with, `end` were set.
pub open spec fn fields_set(list: Seq<i64>, width: u32, start: int, end: int, v: i64) -> Seq<i64>
    decreases end - start,
{
    if start >= end {
        list
    } else {
        field_set(fields_set(list, width, start, end - 1, v), width, end - 1, v)
    }
}

/// The list after the numbers were set, one field after the other. It ends
/// where a field number would leave 64 bits.
pub open spec fn values_set(list: Seq<i64>, width: u32, start: int, values: Seq<Value>) -> Seq<i64>
    decreases values.len(),
{
    if values.len() == 0 {
        list
    } else {
        let before = values_set(list, width, start, values.drop_last());
        let index = start + values.len() - 1;
        if index > i64::MAX {
            before
        } else {
            field_set(
                before,
                width,
                index,
                match values.last().number() {
                    Some(v) => v,
                    None => 0,
                },
            )
        }
    }
}

proof fn lemma_fields_set(list: Seq<i64>, width: u32, start: int, end: int, v: i64)
    ensures
        fields_set(list, width, start, end, v).len() == list.len(),
    decreases end - start,
{
    if start < end {
        lemma_fields_set(list, width, start, end - 1, v);
    }
}

/// After a clear, every field of the range reads as what it keeps of the
/// number, and every other field of the same width as before.
pub proof fn cleared_fields_read_alike(
    list: Seq<i64>,
    width: u32,
    start: int,
    end: int,
    v: i64,
    index: int,
)
    requires
        located(list.len() as int, width as int, index),
    ensures
        field(fields_set(list, width, start, end, v), width, index) == if start <= index < end {
            kept(width, v)
        } else {
            field(list, width, index)
        },
    decreases end - start,
{
    if start < end {
        let before = fields_set(list, width, start, end - 1, v);
        cleared_fields_read_alike(list, width, start, end - 1, v, index);
        lemma_fields_set(list, width, start, end - 1, v);
        if index == end - 1 {
            get_after_set(before, width, index, v);
        } else {
            set_leaves_other_fields(before, width, end - 1, v, index);
        }
    }
}

proof fn lemma_values_set(list: Seq<i64>, width: u32, start: int, values: Seq<Value>)
    ensures
        values_set(list, width, start, values).len() == list.len(),
    decreases values.len(),
{
    if values.len() > 0 {
        lemma_values_set(list, width, start, values.drop_last());
    }
}

/// After `SETS`, the field for each argument reads as what it keeps of that
/// argument's number.
pub proof fn set_values_read_back(
    list: Seq<i64>,
    width: u32,
    start: int,
    values: Seq<Value>,
    k: int,
)
    requires
        0 <= k < values.len(),
        start + values.len() - 1 <= i64::MAX,
        located(list.len() as int, width as int, start + k),
    ensures
        field(values_set(list, width, start, values), width, start + k) == kept(
            width,
            match values[k].number() {
                Some(v) => v,
                None => 0,
            },
        ),
    decreases values.len(),
{
    let before = values_set(list, width, start, values.drop_last());
    lemma_values_set(list, width, start, values.drop_last());
    let index = start + values.len() - 1;
    let last = match values.last().number() {
        Some(v) => v,
        None => 0,
    };
    if k == values.len() - 1 {
        get_after_set(before, width, index, last);
    } else {
        set_values_read_back(list, width, start, values.drop_last(), k);
        set_leaves_other_fields(before, width, index, last, start + k);
    }
}

/// What a command on a number list leaves in the list and on the stack.
#[verifier::ext_equal]
pub struct IntListEffect {
    /// The list after the command, where the command touches it.
    pub words: Option<Seq<i64>>,
    pub result: int,
}

/// The effect of a command.
pub open spec fn effect_of(ctx: CommandContext, form_id: u32, args: Seq<Value>) -> IntListEffect {
    let nothing = IntListEffect { words: None, result: 0 };
    match prop_access::command_path(ctx, form_id, args) {
        None => nothing,
        Some(path) => match target_of(ctx.ids, path) {
            None => nothing,
            Some(IntListTarget::Root) => nothing,
            Some(IntListTarget::Index { width, index }) => {
                let words = words_for(
                    ctx.ids,
                    ctx.tables,
                    ctx.globals,
                    form_id,
                    width,
                    index as int,
                );
                if prop_access::call_al_id(ctx) == 1 {
                    IntListEffect {
                        words: Some(
                            field_set(words, width, index as int, value::int_or(args, 0, 0) as i64),
                        ),
                        result: 0,
                    }
                } else {
                    IntListEffect {
                        words: Some(words),
                        result: field(words, width, index as int) as int,
                    }
                }
            },
            Some(IntListTarget::Command { width, op }) => command_effect(
                ctx,
                form_id,
                width,
                op,
                prop_access::command_params(ctx, form_id, args),
            ),
        },
    }
}

/// The effect of a command by its number.
pub open spec fn command_effect(
    ctx: CommandContext,
    form_id: u32,
    width: u32,
    op: i32,
    params: Seq<Value>,
) -> IntListEffect {
    let ops = ctx.ids.int_list;
    let words = words_of(ctx.ids, ctx.tables, ctx.globals, form_id);
    let fixed = fixed_length(ctx.ids, ctx.tables, form_id);
    if op == ops.init {
        IntListEffect {
            words: Some(
                match fixed {
                    Some(n) => Seq::new(n as nat, |i: int| 0i64),
                    None => Seq::empty(),
                },
            ),
            result: 0,
        }
    } else if op == ops.resize {
        let requested = value::int_or(params, 0, 0);
        let n = if requested < 0 {
            0
        } else {
            requested
        };
        if fixed is Some || n > usize::MAX {
            IntListEffect { words: None, result: 0 }
        } else {
            IntListEffect { words: Some(resized(words, n)), result: 0 }
        }
    } else if op == ops.get_size {
        IntListEffect {
            words: Some(words),
            result: field_count(words.len() as int, width as int) as i64 as int,
        }
    } else if op == ops.clear {
        let start = value::int_or(params, 0, 0);
        let end = value::int_or(params, 1, start);
        let v = if prop_access::call_al_id(ctx) == 0 {
            0
        } else {
            value::int_or(params, 2, 0)
        };
        if start <= end {
            IntListEffect {
                words: Some(
                    fields_set(
                        words_for(ctx.ids, ctx.tables, ctx.globals, form_id, width, end),
                        width,
                        start,
                        end + 1,
                        v as i64,
                    ),
                ),
                result: 0,
            }
        } else {
            IntListEffect { words: None, result: 0 }
        }
    } else if op == ops.sets {
        let start = value::int_or(params, 0, 0);
        let last = start + params.len() - 2;
        let before = if params.len() >= 2 && last <= i64::MAX {
            words_for(ctx.ids, ctx.tables, ctx.globals, form_id, width, last)
        } else {
            words
        };
        IntListEffect {
            words: Some(
                if params.len() >= 2 {
                    values_set(before, width, start, params.skip(1))
                } else {
                    before
                },
            ),
            result: 0,
        }
    } else {
        IntListEffect { words: None, result: 0 }
    }
}

/// Whether a command has had its effect, and no other.
pub open spec fn took_effect(
    before: CommandContext,
    after: CommandContext,
    form_id: u32,
    effect: IntListEffect,
) -> bool {
    &&& only_lists_change(before, after)
    &&& value::pushed_int(before.stack@, after.stack@, effect.result)
    &&& match effect.words {
        Some(words) => stored_list(before, after, form_id, words),
        None => after.globals.int_lists == before.globals.int_lists,
    }
}

/// Puts a list back and leaves the result on the stack.
fn finish(ctx: &mut CommandContext, form_id: u32, list: Vec<i64>, result: i64)
    ensures
        final(ctx).globals.int_lists@ == old(ctx).globals.int_lists@.insert(form_id, list),
        only_lists_change(*old(ctx), *final(ctx)),
        value::pushed_int(old(ctx).stack@, final(ctx).stack@, result as int),
{
    put_list(ctx, form_id, list);
    push_int(&mut ctx.stack, result);
}

/// Carries out a command on a number list.
pub fn dispatch(ctx: &mut CommandContext, form_id: u32, args: &[Value]) -> (r: Result<
    bool,
    FormError,
>)
    requires
        old(ctx).wf(),
    ensures
        r == Ok::<bool, FormError>(true),
        took_effect(*old(ctx), *final(ctx), form_id, effect_of(*old(ctx), form_id, args@)),
{
    let ghost before = *ctx;
    let (path, n) = match find_path(ctx, form_id, args) {
        Some(found) => found,
        None => {
            push_int(&mut ctx.stack, 0);
            return Ok(true);
        },
    };
    let params = script_args(args, n);
    let (al_id, _ret_form) = current_vm_meta(ctx);
    match parse_target(&ctx.ids, &path) {
        Some(IntListTarget::Index { width, index }) => {
            let mut list = take_list_for(ctx, form_id, width, index);
            if al_id == 1 {
                let v: i64 = arg_i64_or(args, 0, 0);
                bit_set(form_id, &mut list, width, index, v);
                finish(ctx, form_id, list, 0);
            } else {
                let v: i64 = bit_get(form_id, list.as_slice(), width, index);
                finish(ctx, form_id, list, v);
            }
            proof {
                lemma_stored(before, *ctx, form_id, list);
            }
        },
        Some(IntListTarget::Command { width, op }) => {
            command(ctx, form_id, width, op, params, al_id);
        },
        _ => {
            push_int(&mut ctx.stack, 0);
        },
    }
    Ok(true)
}

fn command(
    ctx: &mut CommandContext,
    form_id: u32,
    width: u32,
    op: i32,
    params: &[Value],
    al_id: i64,
)
    requires
        old(ctx).wf(),
        width_ok(width as int),
        al_id == prop_access::call_al_id(*old(ctx)),
    ensures
        took_effect(
            *old(ctx),
            *final(ctx),
            form_id,
            command_effect(*old(ctx), form_id, width, op, params@),
        ),
{
    let ghost before = *ctx;
    let ops = ctx.ids.int_list;
    if op == ops.init {
        let mut list = take_list(ctx, form_id);
        list.clear();
        if let Some(n) = fixed_default_len(ctx, form_id) {
            list.resize(n, 0);
            proof {
                assert(list@ =~= Seq::new(n as nat, |i: int| 0i64));
            }
        }
        finish(ctx, form_id, list, 0);
        proof {
            lemma_stored(before, *ctx, form_id, list);
        }
    } else if op == ops.resize {
        let mut requested: i64 = arg_i64_or(params, 0, 0);
        if requested < 0 {
            requested = 0;
        }
        if kind_of(&ctx.ids, form_id).is_some() || requested as u64 > usize::MAX as u64 {
            push_int(&mut ctx.stack, 0);
            return;
        }
        let mut list = take_list(ctx, form_id);
        let ghost words = list@;
        list.resize(requested as usize, 0);
        proof {
            assert(list@ =~= resized(words, requested as int));
        }
        finish(ctx, form_id, list, 0);
        proof {
            lemma_stored(before, *ctx, form_id, list);
        }
    } else if op == ops.get_size {
        let list = take_list(ctx, form_id);
        let size: i64 = logical_size(list.len(), width);
        finish(ctx, form_id, list, size);
        proof {
            lemma_stored(before, *ctx, form_id, list);
        }
    } else if op == ops.clear {
        clear_range(ctx, form_id, width, params, al_id);
    } else if op == ops.sets {
        set_values(ctx, form_id, width, params);
    } else {
        push_int(&mut ctx.stack, 0);
    }
}

fn clear_range(ctx: &mut CommandContext, form_id: u32, width: u32, params: &[Value], al_id: i64)
    requires
        old(ctx).wf(),
        al_id == prop_access::call_al_id(*old(ctx)),
        old(ctx).ids.int_list.clear != old(ctx).ids.int_list.init,
        old(ctx).ids.int_list.clear != old(ctx).ids.int_list.resize,
        old(ctx).ids.int_list.clear != old(ctx).ids.int_list.get_size,
    ensures
        took_effect(
            *old(ctx),
            *final(ctx),
            form_id,
            command_effect(*old(ctx), form_id, width, old(ctx).ids.int_list.clear, params@),
        ),
{
    let ghost before = *ctx;
    let start: i64 = arg_i64_or(params, 0, 0);
    let end: i64 = arg_i64_or(params, 1, start);
    let v: i64 = if al_id == 0 {
        0
    } else {
        arg_i64_or(params, 2, 0)
    };
    if start > end {
        push_int(&mut ctx.stack, 0);
        return;
    }
    let mut list = take_list_for(ctx, form_id, width, end);
    let ghost words = list@;
    let mut index: i64 = start;
    proof {
        assert(fields_set(words, width, start as int, start as int, v) == words);
    }
    while index < end
        invariant
            start <= index <= end,
            list@ == fields_set(words, width, start as int, index as int, v),
        decreases end - index,
    {
        bit_set(form_id, &mut list, width, index, v);
        index = index + 1;
    }
    bit_set(form_id, &mut list, width, end, v);
    finish(ctx, form_id, list, 0);
    proof {
        lemma_stored(before, *ctx, form_id, list);
    }
}

/// The field number `offset` behind `start`, where it stays in 64 bits.
fn field_number(start: i64, offset: usize) -> (r: Option<i64>)
    ensures
        r == (if start + offset <= i64::MAX {
            Some((start + offset) as i64)
        } else {
            None
        }),
{
    let sum: i128 = start as i128 + offset as i128;
    if sum <= i64::MAX as i128 {
        Some(sum as i64)
    } else {
        None
    }
}

fn set_values(ctx: &mut CommandContext, form_id: u32, width: u32, params: &[Value])
    requires
        old(ctx).wf(),
        old(ctx).ids.int_list.sets != old(ctx).ids.int_list.init,
        old(ctx).ids.int_list.sets != old(ctx).ids.int_list.resize,
        old(ctx).ids.int_list.sets != old(ctx).ids.int_list.get_size,
        old(ctx).ids.int_list.sets != old(ctx).ids.int_list.clear,
    ensures
        took_effect(
            *old(ctx),
            *final(ctx),
            form_id,
            command_effect(*old(ctx), form_id, width, old(ctx).ids.int_list.sets, params@),
        ),
{
    let ghost before = *ctx;
    let start: i64 = arg_i64_or(params, 0, 0);
    let len: usize = params.len();
    let last: Option<i64> = if len >= 2 {
        field_number(start, len - 2)
    } else {
        None
    };
    let mut list = match last {
        Some(last) => take_list_for(ctx, form_id, width, last),
        None => take_list(ctx, form_id),
    };
    let ghost words = list@;
    let ghost values = params@.skip(1);
    let mut offset: usize = 0;
    proof {
        if len >= 2 {
            assert(values.take(0) =~= Seq::<Value>::empty());
        }
    }
    let mut stopped: bool = false;
    while len >= 2 && offset < len - 1 && !stopped
        invariant
            len == params@.len(),
            len >= 2 ==> values == params@.skip(1) && offset <= len - 1,
            len >= 2 ==> list@ == values_set(words, width, start as int, values.take(offset as int)),
            stopped ==> start + offset > i64::MAX,
            len < 2 ==> list@ == words,
        decreases
            len - offset,
            if stopped {
                0int
            } else {
                1int
            },
    {
        let index: Option<i64> = field_number(start, offset);
        proof {
            let taken = values.take(offset + 1);
            assert(taken.drop_last() =~= values.take(offset as int));
            assert(taken.last() == params@[offset + 1]);
        }
        match index {
            Some(index) => {
                let v: i64 = match params[offset + 1].as_i64() {
                    Some(v) => v,
                    None => 0,
                };
                bit_set(form_id, &mut list, width, index, v);
                offset = offset + 1;
            },
            None => {
                stopped = true;
            },
        }
    }
    proof {
        if len >= 2 {
            if stopped {
                lemma_values_stop(words, width, start as int, values, offset as int);
            }
            assert(values.take(values.len() as int) =~= values);
        }
    }
    finish(ctx, form_id, list, 0);
    proof {
        lemma_stored(before, *ctx, form_id, list);
    }
}

proof fn lemma_values_stop(list: Seq<i64>, width: u32, start: int, values: Seq<Value>, n: int)
    requires
        0 <= n <= values.len(),
        start + n > i64::MAX,
    ensures
        values_set(list, width, start, values) == values_set(list, width, start, values.take(n)),
    decreases values.len() - n,
{
    if n == values.len() {
        assert(values.take(n) =~= values);
    } else {
        lemma_values_stop(list, width, start, values.drop_last(), n);
        assert(values.drop_last().take(n) =~= values.take(n));
    }
}

proof fn lemma_two_halves(raw: u32, width: u32, shift: u32, wide: u32)
    requires
        width == 1 || width == 2 || width == 4 || width == 8,
        wide == 2 * width,
        shift + wide <= 32,
    ensures
        low_bits(raw >> shift, wide) == low_bits(raw >> shift, width) + low_bits(
            raw >> ((shift + width) as u32),
            width,
        ) * (1u32 << width),
{
    assert(((raw >> shift) & ((1u32 << wide) - 1) as u32) == ((raw >> shift) & ((1u32 << width)
        - 1) as u32) + ((raw >> ((shift + width) as u32)) & ((1u32 << width) - 1) as u32) * (1u32
        << width)) by (bit_vector)
        requires
            width == 1 || width == 2 || width == 4 || width == 8,
            wide == 2 * width,
            shift + wide <= 32,
    ;
}

/// A field of twice the width is two fields side by side, the lower half first:
/// its value is that of the first and as many times that of the second as one
/// field has values.
pub proof fn wider_fields_are_two_fields(list: Seq<i64>, width: u32, index: int)
    requires
        width == 1 || width == 2 || width == 4 || width == 8,
        0 <= index,
        2 * index + 1 <= 0xffff_ffff,
        located(list.len() as int, 2 * width as int, index),
    ensures
        ({
            let times = if width == 1 {
                2int
            } else if width == 2 {
                4
            } else if width == 4 {
                16
            } else {
                256
            };
            field(list, (2 * width) as u32, index) == field(list, width, 2 * index) + times * field(
                list,
                width,
                2 * index + 1,
            )
        }),
{
    let wide = (2 * width) as u32;
    lemma_scaled(index, wide as int);
    lemma_scaled(2 * index, width as int);
    lemma_scaled(2 * index + 1, width as int);
    let word = list[index * wide / 32];
    let shift = (index * wide % 32) as u32;
    assert((2 * index) * width == index * wide) by (nonlinear_arith)
        requires
            wide == 2 * width,
    ;
    assert((2 * index + 1) * width == index * wide + width) by (nonlinear_arith)
        requires
            wide == 2 * width,
    ;
    assert((index * wide + width) / 32 == index * wide / 32);
    assert((index * wide + width) % 32 == shift + width);
    lemma_two_halves(bits(word), width, shift, wide);
    assert(1u32 << 1u32 == 2 && 1u32 << 2u32 == 4 && 1u32 << 4u32 == 16 && 1u32 << 8u32 == 256)
        by (bit_vector);
}

/// A list has just as many words as the field needs: with one word less there is
/// no room for it.
pub proof fn words_needed_are_needed(width: int, index: int, n: int)
    requires
        words_needed(width, index) == Some(n),
    ensures
        located(n, width, index),
        !located(n - 1, width, index),
{
    lemma_scaled(index, width);
    lemma_scaled(index + 1, width);
    assert((index + 1) * width == index * width + width) by (nonlinear_arith);
}

/// A command that clears sets every field from the first to the last that it
/// names, both of them with it, and no other: to 0, or to the value that a call
/// with one gives.
pub proof fn clearing_sets_the_fields_it_names(
    ctx: CommandContext,
    form_id: u32,
    width: u32,
    start: i64,
    last: i64,
    v: i64,
    index: int,
    list: Seq<i64>,
)
    requires
        ctx.ids.int_list.clear != ctx.ids.int_list.init,
        ctx.ids.int_list.clear != ctx.ids.int_list.resize,
        ctx.ids.int_list.clear != ctx.ids.int_list.get_size,
        fixed_kind(ctx.ids, form_id) is None,
        ctx.globals.int_lists@.contains_key(form_id),
        list == ctx.globals.int_lists@[form_id]@,
        located(list.len() as int, width as int, index),
        start <= last,
    ensures
        ({
            let effect = command_effect(
                ctx,
                form_id,
                width,
                ctx.ids.int_list.clear,
                seq![Value::Int(start), Value::Int(last), Value::Int(v)],
            );
            &&& effect.words is Some && effect.words->0.len() == list.len()
            &&& field(effect.words->0, width, index) == (if start <= index <= last {
                if prop_access::call_al_id(ctx) == 0 {
                    kept(width, 0)
                } else {
                    kept(width, v)
                }
            } else {
                field(list, width, index)
            })
        }),
{
    let value = if prop_access::call_al_id(ctx) == 0 {
        0i64
    } else {
        v
    };
    cleared_fields_read_alike(list, width, start as int, last + 1, value, index);
    lemma_fields_len(list, width, start as int, last + 1, value);
}

proof fn lemma_fields_len(list: Seq<i64>, width: u32, start: int, end: int, v: i64)
    ensures
        fields_set(list, width, start, end, v).len() == list.len(),
    decreases end - start,
{
    if start < end {
        lemma_fields_len(list, width, start, end - 1, v);
    }
}

/// A command that sets several values puts them one behind the other, from the
/// field that it names on.
pub proof fn values_are_set_one_behind_the_other(
    ctx: CommandContext,
    form_id: u32,
    width: u32,
    start: i64,
    values: Seq<Value>,
    k: int,
    list: Seq<i64>,
)
    requires
        ctx.ids.int_list.sets != ctx.ids.int_list.init,
        ctx.ids.int_list.sets != ctx.ids.int_list.resize,
        ctx.ids.int_list.sets != ctx.ids.int_list.get_size,
        ctx.ids.int_list.sets != ctx.ids.int_list.clear,
        fixed_kind(ctx.ids, form_id) is None,
        ctx.globals.int_lists@.contains_key(form_id),
        list == ctx.globals.int_lists@[form_id]@,
        0 <= k < values.len(),
        start + values.len() - 1 <= i64::MAX,
        located(list.len() as int, width as int, start + k),
    ensures
        ({
            let effect = command_effect(
                ctx,
                form_id,
                width,
                ctx.ids.int_list.sets,
                seq![Value::Int(start)] + values,
            );
            effect.words is Some && field(effect.words->0, width, start + k) == kept(
                width,
                match values[k].number() {
                    Some(v) => v,
                    None => 0,
                },
            )
        }),
{
    let params = seq![Value::Int(start)] + values;
    assert(params.skip(1) =~= values);
    assert(params[0] == Value::Int(start));
    set_values_read_back(list, width, start as int, values, k);
}

/// A list that is resized keeps its words in front and gains zeros; its size is
/// the number of fields of the width that is asked with.
pub proof fn resized_lists_keep_their_words(
    ctx: CommandContext,
    form_id: u32,
    width: u32,
    n: i64,
    list: Seq<i64>,
    i: int,
)
    requires
        ctx.ids.int_list.init != ctx.ids.int_list.resize,
        ctx.ids.int_list.init != ctx.ids.int_list.get_size,
        ctx.ids.int_list.resize != ctx.ids.int_list.get_size,
        fixed_kind(ctx.ids, form_id) is None,
        ctx.globals.int_lists@.contains_key(form_id),
        list == ctx.globals.int_lists@[form_id]@,
        width_ok(width as int),
        list.len() * 32 <= i64::MAX,
        list.len() * 32 <= usize::MAX,
        0 <= i < n <= usize::MAX,
    ensures
        ({
            let args = seq![Value::Int(n)];
            let made = command_effect(ctx, form_id, width, ctx.ids.int_list.resize, args);
            let asked = command_effect(ctx, form_id, width, ctx.ids.int_list.get_size, args);
            let fresh = command_effect(ctx, form_id, width, ctx.ids.int_list.init, args);
            &&& made.words is Some && made.words->0.len() == n
            &&& made.words->0[i] == (if i < list.len() {
                list[i]
            } else {
                0i64
            })
            &&& asked.words == Some(list) && asked.result * width == 32 * list.len()
            &&& fresh.words == Some(Seq::<i64>::empty())
        }),
{
    let m = list.len() as int;
    let w = width as int;
    let q = 32int / w;
    assert(q * w == 32);
    assert((m * q) * w == 32 * m && m * q <= 32 * m) by (nonlinear_arith)
        requires
            q * w == 32,
            w >= 1,
            q >= 1,
            q <= 32,
            m >= 0,
    ;
}

} // verus!
