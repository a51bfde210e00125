//! Lists of texts, and the commands on one text.

use vstd::prelude::*;
use crate::number_text;
use crate::number_text::parse_i64;
use crate::runtime::context;
use crate::runtime::context::{
    configured_count_info, CommandContext, FormError, Globals, Ids, Tables, TextOps,
};
use crate::runtime::forms::prop_access;
use crate::runtime::forms::prop_access::{current_vm_meta, find_path, script_args};
use crate::runtime::string_semantics;
use crate::runtime::string_semantics::{
    ascii_lower, ascii_upper, display_width, left_by_display_width, mid_by_display_width,
    right_by_display_width, rsearch_ascii_case_insensitive, search_ascii_case_insensitive,
    utf16_code_unit, utf16_left, utf16_len, utf16_right, utf16_slice,
};
use crate::runtime::value;
use crate::runtime::value::{arg_i64_or, arg_string, Value};
use crate::text;
use crate::text_parts;

verus! {

broadcast use vstd::std_specs::hash::group_hash_axioms;

/// The fixed length of a list. There is a name for every letter and every pair
/// of letters.
pub open spec fn fixed_length(ids: Ids, tables: Tables, form_id: u32) -> Option<int> {
    if form_id == ids.local_str_list {
        Some(context::flag_length(tables, false))
    } else if form_id == ids.global_str_list {
        Some(context::flag_length(tables, true))
    } else if form_id == ids.local_names || form_id == ids.global_names {
        Some(702int)
    } else {
        None
    }
}

/// Whether the length of a list is given, not assumed.
pub open spec fn length_is_explicit(ids: Ids, tables: Tables, form_id: u32) -> bool {
    if form_id == ids.local_str_list {
        context::flag_count(tables, false) is Some
    } else if form_id == ids.global_str_list {
        context::flag_count(tables, true) is Some
    } else {
        true
    }
}

/// The fixed length of a list.
pub fn fixed_default_len(ctx: &CommandContext, form_id: u32) -> (r: Option<usize>)
    requires
        ctx.wf(),
    ensures
        match r {
            Some(n) => fixed_length(ctx.ids, ctx.tables, form_id) == Some(n as int),
            None => fixed_length(ctx.ids, ctx.tables, form_id) is None,
        },
{
    if form_id == ctx.ids.local_str_list {
        Some(configured_count_info(&ctx.tables, false).0)
    } else if form_id == ctx.ids.global_str_list {
        Some(configured_count_info(&ctx.tables, true).0)
    } else if form_id == ctx.ids.local_names || form_id == ctx.ids.global_names {
        Some(26 + 26 * 26)
    } else {
        None
    }
}

fn fixed_count_is_explicit(ctx: &CommandContext, form_id: u32) -> (r: bool)
    requires
        ctx.wf(),
    ensures
        r == length_is_explicit(ctx.ids, ctx.tables, form_id),
{
    if form_id == ctx.ids.local_str_list {
        configured_count_info(&ctx.tables, false).1
    } else if form_id == ctx.ids.global_str_list {
        configured_count_info(&ctx.tables, true).1
    } else {
        true
    }
}

/// `list` with empty texts behind it up to the length `n`.
pub open spec fn padded(list: Seq<Seq<char>>, n: int) -> Seq<Seq<char>> {
    if list.len() >= n {
        list
    } else {
        list + Seq::new((n - list.len()) as nat, |i: int| Seq::<char>::empty())
    }
}

/// `list` at the length `n`: cut, or with empty texts behind it.
pub open spec fn resized(list: Seq<Seq<char>>, n: int) -> Seq<Seq<char>> {
    if list.len() >= n {
        list.take(n)
    } else {
        padded(list, n)
    }
}

/// The texts of a list. A fixed one never has fewer than its length.
pub open spec fn texts_of(ids: Ids, tables: Tables, globals: Globals, form_id: u32) -> Seq<
    Seq<char>,
> {
    let stored = if globals.str_lists@.contains_key(form_id) {
        text_parts::texts(globals.str_lists@[form_id]@)
    } else {
        Seq::empty()
    };
    match fixed_length(ids, tables, form_id) {
        Some(n) => padded(stored, n),
        None => stored,
    }
}

/// The list that a command on the text `index` works on. Where the
/// configuration leaves the length of a fixed list open, the list grows to
/// hold the text, up to 10000 texts.
pub open spec fn texts_for(
    ids: Ids,
    tables: Tables,
    globals: Globals,
    form_id: u32,
    index: int,
) -> Seq<Seq<char>> {
    let list = texts_of(ids, tables, globals, form_id);
    if fixed_length(ids, tables, form_id) is Some && !length_is_explicit(ids, tables, form_id)
        && index < 10000 {
        padded(list, index + 1)
    } else {
        list
    }
}

fn pad(list: &mut Vec<String>, n: usize)
    ensures
        text_parts::texts(final(list)@) == padded(text_parts::texts(old(list)@), n as int),
{
    let ghost before = text_parts::texts(list@);
    proof {
        assert(before + Seq::new(0, |i: int| Seq::<char>::empty()) =~= before);
    }
    while list.len() < n
        invariant
            before.len() <= list@.len(),
            text_parts::texts(list@) == padded(before, list@.len() as int),
            list@.len() <= n || list@.len() == before.len(),
        decreases n - list@.len(),
    {
        let ghost was = list@;
        list.push(String::new());
        proof {
            assert(text_parts::texts(list@) =~= text_parts::texts(was).push(Seq::<char>::empty()));
            assert(text_parts::texts(list@) =~= padded(before, list@.len() as int));
        }
    }
}

/// Whether nothing but the text lists and the stack differs.
pub open spec fn only_lists_change(before: CommandContext, after: CommandContext) -> bool {
    after == (CommandContext {
        stack: after.stack,
        globals: (Globals { str_lists: after.globals.str_lists, ..before.globals }),
        ..before
    })
}

/// Whether the list `form_id` holds `list` now and every other list is as it
/// was.
pub open spec fn stored_list(
    before: CommandContext,
    after: CommandContext,
    form_id: u32,
    list: Seq<Seq<char>>,
) -> bool {
    &&& after.globals.str_lists@.dom() == before.globals.str_lists@.dom().insert(form_id)
    &&& text_parts::texts(after.globals.str_lists@[form_id]@) == list
    &&& forall|k: u32|
        k != form_id && before.globals.str_lists@.contains_key(k)
            ==> #[trigger] after.globals.str_lists@[k] == before.globals.str_lists@[k]
}

proof fn lemma_stored(
    before: CommandContext,
    after: CommandContext,
    form_id: u32,
    list: Vec<String>,
)
    requires
        after.globals.str_lists@ == before.globals.str_lists@.remove(form_id).insert(form_id, list),
    ensures
        stored_list(before, after, form_id, text_parts::texts(list@)),
{
    assert(after.globals.str_lists@.dom() =~= before.globals.str_lists@.dom().insert(form_id));
}

fn take_list(ctx: &mut CommandContext, form_id: u32) -> (list: Vec<String>)
    requires
        old(ctx).wf(),
    ensures
        text_parts::texts(list@) == texts_of(old(ctx).ids, old(ctx).tables, old(ctx).globals, form_id),
        final(ctx).globals.str_lists@ == old(ctx).globals.str_lists@.remove(form_id),
        only_lists_change(*old(ctx), *final(ctx)),
        final(ctx).stack == old(ctx).stack,
{
    let fixed: Option<usize> = fixed_default_len(ctx, form_id);
    let mut list: Vec<String> = match ctx.globals.str_lists.remove(&form_id) {
        Some(list) => list,
        None => Vec::new(),
    };
    proof {
        if !old(ctx).globals.str_lists@.contains_key(form_id) {
            assert(text_parts::texts(list@) =~= Seq::<Seq<char>>::empty());
        }
    }
    if let Some(n) = fixed {
        pad(&mut list, n);
    }
    list
}

fn take_list_for(ctx: &mut CommandContext, form_id: u32, index: usize) -> (list: Vec<String>)
    requires
        old(ctx).wf(),
    ensures
        text_parts::texts(list@) == texts_for(
            old(ctx).ids,
            old(ctx).tables,
            old(ctx).globals,
            form_id,
            index as int,
        ),
        final(ctx).globals.str_lists@ == old(ctx).globals.str_lists@.remove(form_id),
        only_lists_change(*old(ctx), *final(ctx)),
        final(ctx).stack == old(ctx).stack,
{
    let grows: bool = fixed_default_len(ctx, form_id).is_some() && !fixed_count_is_explicit(
        ctx,
        form_id,
    );
    let mut list = take_list(ctx, form_id);
    if grows && index < 10000 {
        pad(&mut list, index + 1);
    }
    list
}

fn put_list(ctx: &mut CommandContext, form_id: u32, list: Vec<String>)
    ensures
        final(ctx).globals.str_lists@ == old(ctx).globals.str_lists@.insert(form_id, list),
        only_lists_change(*old(ctx), *final(ctx)),
        final(ctx).stack == old(ctx).stack,
{
    let _old: Option<Vec<String>> = ctx.globals.str_lists.insert(form_id, list);
}

/// Makes a list ready for direct access to the text at `index`.
pub fn ensure_fixed_direct_index(ctx: &mut CommandContext, form_id: u32, index: usize)
    requires
        old(ctx).wf(),
    ensures
        stored_list(
            *old(ctx),
            *final(ctx),
            form_id,
            texts_for(old(ctx).ids, old(ctx).tables, old(ctx).globals, form_id, index as int),
        ),
        only_lists_change(*old(ctx), *final(ctx)),
        final(ctx).stack == old(ctx).stack,
{
    let list = take_list_for(ctx, form_id, index);
    put_list(ctx, form_id, list);
    proof {
        lemma_stored(*old(ctx), *ctx, form_id, list);
    }
}

/// A result of a command.
#[verifier::ext_equal]
pub enum Outcome {
    Number(int),
    Text(Seq<char>),
}

/// Whether `v` is the value of a result.
pub open spec fn is_outcome(v: Value, r: Outcome) -> bool {
    match r {
        Outcome::Number(n) => v matches Value::Int(m) && m == n,
        Outcome::Text(s) => v matches Value::Str(t) && t@ == s,
    }
}

/// The count at place `i` of the arguments; none counts as 0, and so does a
/// negative one.
pub open spec fn count_at(params: Seq<Value>, i: int) -> usize {
    let v = value::int_or(params, i, 0);
    if v < 0 {
        0
    } else {
        v as usize
    }
}

fn count_arg(params: &[Value], i: usize) -> (n: usize)
    ensures
        n == count_at(params@, i as int),
{
    let v: i64 = arg_i64_or(params, i, 0);
    if v < 0 {
        0
    } else {
        v as usize
    }
}

/// The length that `MID` and `MID_LEN` take, where it is given.
pub open spec fn length_at(params: Seq<Value>, al_id: int) -> Option<usize> {
    if al_id == 0 || params.len() <= 1 {
        None
    } else {
        Some(count_at(params, 1))
    }
}

fn length_arg(params: &[Value], al_id: i64) -> (r: Option<usize>)
    ensures
        r == length_at(params@, al_id as int),
{
    if al_id == 0 || params.len() <= 1 {
        None
    } else {
        Some(count_arg(params, 1))
    }
}

pub open spec fn place_or_minus_one(place: Option<int>) -> int {
    match place {
        Some(n) => n as i64 as int,
        None => -1,
    }
}

/// The result of a command on one text.
pub open spec fn text_op(
    ops: TextOps,
    s: Seq<char>,
    op: i32,
    params: Seq<Value>,
    al_id: int,
) -> Outcome {
    let units = text::utf16(s);
    let count = count_at(params, 0) as int;
    let kept = if count < units.len() {
        count
    } else {
        units.len() as int
    };
    let hay = text::lower(s);
    let wanted = text::lower(value::text_or_empty(params, 0));
    if op == ops.upper {
        Outcome::Text(text::upper(s))
    } else if op == ops.lower {
        Outcome::Text(text::lower(s))
    } else if op == ops.cnt {
        Outcome::Number(units.len() as i64 as int)
    } else if op == ops.len {
        Outcome::Number(string_semantics::width(s) as i64 as int)
    } else if op == ops.left {
        Outcome::Text(text::decoded_lossy(units.take(kept)))
    } else if op == ops.left_len {
        Outcome::Text(s.take(string_semantics::fitting(s, count)))
    } else if op == ops.right {
        Outcome::Text(text::decoded_lossy(units.skip(units.len() - kept)))
    } else if op == ops.right_len {
        Outcome::Text(s.skip(s.len() - string_semantics::fitting(s.reverse(), count)))
    } else if op == ops.mid {
        let range = string_semantics::unit_range(
            units.len() as int,
            count,
            length_at(params, al_id),
        );
        Outcome::Text(text::decoded_lossy(units.subrange(range.0, range.1)))
    } else if op == ops.mid_len {
        Outcome::Text(string_semantics::middle(s, count, length_at(params, al_id)))
    } else if op == ops.search {
        Outcome::Number(
            place_or_minus_one(
                string_semantics::unit_index(hay, string_semantics::first_from(hay, wanted, 0)),
            ),
        )
    } else if op == ops.search_last {
        Outcome::Number(
            place_or_minus_one(
                string_semantics::unit_index(
                    hay,
                    string_semantics::last_from(hay, wanted, hay.len() as int),
                ),
            ),
        )
    } else if op == ops.get_code {
        let pos = value::int_or(params, 0, 0);
        Outcome::Number(
            if 0 <= pos < units.len() {
                units[pos] as int
            } else {
                -1
            },
        )
    } else if op == ops.to_num {
        Outcome::Number(
            match number_text::number_within(s, i64::MIN as int, i64::MAX as int) {
                Some(v) => v,
                None => 0,
            },
        )
    } else {
        Outcome::Text(s)
    }
}

/// Carries out a command on one text.
pub fn execute_str_op(
    ops: &TextOps,
    current: &str,
    op: i32,
    params: &[Value],
    al_id: i64,
) -> (v: Value)
    ensures
        is_outcome(v, text_op(*ops, current@, op, params@, al_id as int)),
{
    if op == ops.upper {
        Value::Str(ascii_upper(current))
    } else if op == ops.lower {
        Value::Str(ascii_lower(current))
    } else if op == ops.cnt {
        Value::Int(utf16_len(current) as i64)
    } else if op == ops.len {
        Value::Int(display_width(current) as i64)
    } else if op == ops.left {
        Value::Str(utf16_left(current, count_arg(params, 0)))
    } else if op == ops.left_len {
        Value::Str(left_by_display_width(current, count_arg(params, 0)))
    } else if op == ops.right {
        Value::Str(utf16_right(current, count_arg(params, 0)))
    } else if op == ops.right_len {
        Value::Str(right_by_display_width(current, count_arg(params, 0)))
    } else if op == ops.mid {
        Value::Str(utf16_slice(current, count_arg(params, 0), length_arg(params, al_id)))
    } else if op == ops.mid_len {
        Value::Str(mid_by_display_width(current, count_arg(params, 0), length_arg(params, al_id)))
    } else if op == ops.search {
        let wanted = arg_string(params, 0);
        match search_ascii_case_insensitive(current, wanted.as_str()) {
            Some(n) => Value::Int(n as i64),
            None => Value::Int(-1),
        }
    } else if op == ops.search_last {
        let wanted = arg_string(params, 0);
        match rsearch_ascii_case_insensitive(current, wanted.as_str()) {
            Some(n) => Value::Int(n as i64),
            None => Value::Int(-1),
        }
    } else if op == ops.get_code {
        let pos: i64 = arg_i64_or(params, 0, 0);
        if pos < 0 || pos as u64 > usize::MAX as u64 {
            let _len: usize = utf16_len(current);
            return Value::Int(-1);
        }
        match utf16_code_unit(current, pos as usize) {
            Some(unit) => Value::Int(unit as i64),
            None => Value::Int(-1),
        }
    } else if op == ops.to_num {
        match parse_i64(current) {
            Some(v) => Value::Int(v),
            None => Value::Int(0),
        }
    } else {
        Value::Str(current.to_owned())
    }
}

/// The empty value of a result type.
pub open spec fn default_outcome(ids: Ids, ret_form: i64) -> Outcome {
    if ret_form == ids.fm_str {
        Outcome::Text(Seq::empty())
    } else {
        Outcome::Number(0)
    }
}

fn default_for_ret_form(ids: &Ids, ret_form: i64) -> (v: Value)
    ensures
        is_outcome(v, default_outcome(*ids, ret_form)),
{
    if ret_form == ids.fm_str {
        Value::Str(String::new())
    } else {
        Value::Int(0)
    }
}

/// What a command on a text list leaves in the list and on the stack.
#[verifier::ext_equal]
pub struct StrListEffect {
    /// The list after the command, where the command touches it.
    pub list: Option<Seq<Seq<char>>>,
    pub result: Outcome,
}

/// The type of the result that a call wants; a text where nothing says.
pub open spec fn wanted_form(ctx: CommandContext) -> i64 {
    match prop_access::call_ret_form(ctx) {
        Some(f) => f,
        None => ctx.ids.fm_str,
    }
}

/// The effect of a command on the text at `path[2]`.
pub open spec fn element_effect(
    ctx: CommandContext,
    form_id: u32,
    args: Seq<Value>,
    path: Seq<i32>,
) -> StrListEffect {
    let index = path[2] as int;
    let whole = texts_of(ctx.ids, ctx.tables, ctx.globals, form_id);
    let list = texts_for(ctx.ids, ctx.tables, ctx.globals, form_id, index);
    let al_id = prop_access::call_al_id(ctx);
    let default = default_outcome(ctx.ids, wanted_form(ctx));
    if index < 0 {
        StrListEffect { list: Some(whole), result: default }
    } else if index >= list.len() {
        StrListEffect { list: Some(list), result: default }
    } else if path.len() == 3 {
        if al_id == 1 {
            StrListEffect {
                list: Some(list.update(index, value::text_or_empty(args, 0))),
                result: Outcome::Number(0),
            }
        } else {
            StrListEffect { list: Some(list), result: Outcome::Text(list[index]) }
        }
    } else {
        StrListEffect {
            list: Some(list),
            result: text_op(
                ctx.ids.text,
                list[index],
                path[3],
                prop_access::command_params(ctx, form_id, args),
                al_id,
            ),
        }
    }
}

/// The effect of a command on the whole list.
pub open spec fn list_effect(
    ctx: CommandContext,
    form_id: u32,
    op: i32,
    params: Seq<Value>,
) -> StrListEffect {
    let ops = ctx.ids.str_list;
    let whole = texts_of(ctx.ids, ctx.tables, ctx.globals, form_id);
    let fixed = fixed_length(ctx.ids, ctx.tables, form_id);
    let zero = Outcome::Number(0);
    if op == ops.init {
        StrListEffect {
            list: Some(
                match fixed {
                    Some(n) => Seq::new(n as nat, |i: int| Seq::<char>::empty()),
                    None => Seq::empty(),
                },
            ),
            result: zero,
        }
    } else if op == ops.resize {
        let requested = value::int_or(params, 0, 0);
        let n = if requested < 0 {
            0
        } else {
            requested
        };
        StrListEffect {
            list: if fixed is Some || n > usize::MAX {
                None
            } else {
                Some(resized(whole, n))
            },
            result: zero,
        }
    } else if op == ops.get_size {
        StrListEffect { list: Some(whole), result: Outcome::Number(whole.len() as i64 as int) }
    } else if op == ops.sets {
        StrListEffect { list: None, result: zero }
    } else {
        StrListEffect { list: None, result: default_outcome(ctx.ids, wanted_form(ctx)) }
    }
}

/// The effect of a command.
pub open spec fn effect_of(ctx: CommandContext, form_id: u32, args: Seq<Value>) -> StrListEffect {
    match prop_access::command_path(ctx, form_id, args) {
        None => StrListEffect { list: None, result: Outcome::Text(Seq::empty()) },
        Some(path) => if path.len() >= 3 && (path[1] == ctx.ids.elm_array || path[1]
            == ctx.ids.fixed_array) {
            element_effect(ctx, form_id, args, path)
        } else if path.len() >= 2 {
            list_effect(ctx, form_id, path[1], prop_access::command_params(ctx, form_id, args))
        } else {
            StrListEffect { list: None, result: default_outcome(ctx.ids, wanted_form(ctx)) }
        },
    }
}

/// Whether a result has been put on the stack.
pub open spec fn pushed(before: Seq<Value>, after: Seq<Value>, r: Outcome) -> bool {
    &&& after.len() == before.len() + 1
    &&& after.drop_last() == before
    &&& is_outcome(after.last(), r)
}

/// Whether a command has had its effect, and no other.
pub open spec fn took_effect(
    before: CommandContext,
    after: CommandContext,
    form_id: u32,
    effect: StrListEffect,
) -> bool {
    &&& only_lists_change(before, after)
    &&& pushed(before.stack@, after.stack@, effect.result)
    &&& match effect.list {
        Some(list) => stored_list(before, after, form_id, list),
        None => after.globals.str_lists == before.globals.str_lists,
    }
}

fn push_value(stack: &mut Vec<Value>, v: Value)
    ensures
        final(stack)@ == old(stack)@.push(v),
        final(stack)@.drop_last() == old(stack)@,
{
    stack.push(v);
    proof {
        assert(stack@.drop_last() =~= old(stack)@);
    }
}

/// Puts a list back and leaves the result on the stack.
fn finish(ctx: &mut CommandContext, form_id: u32, list: Vec<String>, result: Value)
    ensures
        final(ctx).globals.str_lists@ == old(ctx).globals.str_lists@.insert(form_id, list),
        only_lists_change(*old(ctx), *final(ctx)),
        final(ctx).stack@ == old(ctx).stack@.push(result),
        final(ctx).stack@.drop_last() == old(ctx).stack@,
{
    put_list(ctx, form_id, list);
    push_value(&mut ctx.stack, result);
}

/// Carries out a command on a text list.
pub fn dispatch(ctx: &mut CommandContext, form_id: u32, args: &[Value]) -> (r: Result<
    bool,
    FormError,
>)
    requires
        old(ctx).wf(),
    ensures
        r == Ok::<bool, FormError>(true),
        took_effect(*old(ctx), *final(ctx), form_id, effect_of(*old(ctx), form_id, args@)),
{
    let (path, n) = match find_path(ctx, form_id, args) {
        Some(found) => found,
        None => {
            push_value(&mut ctx.stack, Value::Str(String::new()));
            return Ok(true);
        },
    };
    let params = script_args(args, n);
    let (al_id, form) = current_vm_meta(ctx);
    let ret_form: i64 = match form {
        Some(f) => f,
        None => ctx.ids.fm_str,
    };
    if path.len() >= 3 && (path[1] == ctx.ids.elm_array || path[1] == ctx.ids.fixed_array) {
        element_command(ctx, form_id, args, params, &path, al_id, ret_form);
    } else if path.len() >= 2 {
        list_command(ctx, form_id, path[1], params, ret_form);
    } else {
        let v = default_for_ret_form(&ctx.ids, ret_form);
        push_value(&mut ctx.stack, v);
    }
    Ok(true)
}

fn element_command(
    ctx: &mut CommandContext,
    form_id: u32,
    args: &[Value],
    params: &[Value],
    path: &Vec<i32>,
    al_id: i64,
    ret_form: i64,
)
    requires
        old(ctx).wf(),
        path@.len() >= 3,
        params@ == prop_access::command_params(*old(ctx), form_id, args@),
        al_id == prop_access::call_al_id(*old(ctx)),
        ret_form == wanted_form(*old(ctx)),
    ensures
        took_effect(
            *old(ctx),
            *final(ctx),
            form_id,
            element_effect(*old(ctx), form_id, args@, path@),
        ),
{
    let ghost before = *ctx;
    if path[2] < 0 {
        let list = take_list(ctx, form_id);
        let v = default_for_ret_form(&ctx.ids, ret_form);
        finish(ctx, form_id, list, v);
        proof {
            lemma_stored(before, *ctx, form_id, list);
        }
        return;
    }
    let index: usize = path[2] as usize;
    let mut list = take_list_for(ctx, form_id, index);
    let ghost grown = text_parts::texts(list@);
    let v = if index >= list.len() {
        default_for_ret_form(&ctx.ids, ret_form)
    } else if path.len() == 3 {
        if al_id == 1 {
            let rhs = arg_string(args, 0);
            list.set(index, rhs);
            proof {
                assert(text_parts::texts(list@) =~= grown.update(
                    index as int,
                    value::text_or_empty(args@, 0),
                ));
            }
            Value::Int(0)
        } else {
            Value::Str(list[index].clone())
        }
    } else {
        execute_str_op(&ctx.ids.text, list[index].as_str(), path[3], params, al_id)
    };
    finish(ctx, form_id, list, v);
    proof {
        lemma_stored(before, *ctx, form_id, list);
    }
}

fn list_command(
    ctx: &mut CommandContext,
    form_id: u32,
    op: i32,
    params: &[Value],
    ret_form: i64,
)
    requires
        old(ctx).wf(),
        ret_form == wanted_form(*old(ctx)),
    ensures
        took_effect(*old(ctx), *final(ctx), form_id, list_effect(*old(ctx), form_id, op, params@)),
{
    let ghost before = *ctx;
    let ops = ctx.ids.str_list;
    if op == ops.init {
        let mut list = take_list(ctx, form_id);
        list.clear();
        proof {
            assert(text_parts::texts(list@) =~= Seq::<Seq<char>>::empty());
        }
        if let Some(n) = fixed_default_len(ctx, form_id) {
            pad(&mut list, n);
            proof {
                assert(text_parts::texts(list@) =~= Seq::new(n as nat, |i: int| Seq::<char>::empty()));
            }
        }
        finish(ctx, form_id, list, Value::Int(0));
        proof {
            lemma_stored(before, *ctx, form_id, list);
        }
    } else if op == ops.resize {
        let mut requested: i64 = arg_i64_or(params, 0, 0);
        if requested < 0 {
            requested = 0;
        }
        if fixed_default_len(ctx, form_id).is_some() || requested as u64 > usize::MAX as u64 {
            push_value(&mut ctx.stack, Value::Int(0));
            return;
        }
        let mut list = take_list(ctx, form_id);
        let ghost whole = text_parts::texts(list@);
        let n: usize = requested as usize;
        list.truncate(n);
        proof {
            if whole.len() >= n {
                assert(text_parts::texts(list@) =~= whole.take(n as int));
            } else {
                assert(text_parts::texts(list@) =~= whole);
            }
        }
        pad(&mut list, n);
        finish(ctx, form_id, list, Value::Int(0));
        proof {
            lemma_stored(before, *ctx, form_id, list);
        }
    } else if op == ops.get_size {
        let list = take_list(ctx, form_id);
        let size: i64 = list.len() as i64;
        finish(ctx, form_id, list, Value::Int(size));
        proof {
            lemma_stored(before, *ctx, form_id, list);
        }
    } else if op == ops.sets {
        push_value(&mut ctx.stack, Value::Int(0));
    } else {
        let v = default_for_ret_form(&ctx.ids, ret_form);
        push_value(&mut ctx.stack, v);
    }
}

/// There is a name for each letter and for each pair of letters.
pub proof fn names_are_numbered_by_letters(ids: Ids, tables: Tables, form_id: u32)
    requires
        form_id != ids.local_str_list,
        form_id != ids.global_str_list,
    ensures
        form_id == ids.local_names || form_id == ids.global_names ==> fixed_length(
            ids,
            tables,
            form_id,
        ) == Some(26 + 26 * 26int),
        form_id != ids.local_names && form_id != ids.global_names ==> fixed_length(
            ids,
            tables,
            form_id,
        ) is None,
{
}

/// Texts that were never stored are empty: a list is made longer by empty texts at its end, and
/// what it holds stays in its place.
pub proof fn texts_that_were_not_stored_are_empty(list: Seq<Seq<char>>, n: int, i: int)
    requires
        0 <= i < n || 0 <= i < list.len(),
    ensures
        padded(list, n).len() >= n,
        padded(list, n).len() >= list.len(),
        padded(list, n).len() == n || padded(list, n).len() == list.len(),
        i < list.len() ==> padded(list, n)[i] == list[i],
        i >= list.len() ==> padded(list, n)[i].len() == 0,
{
}

} // verus!
