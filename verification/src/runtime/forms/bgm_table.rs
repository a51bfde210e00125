//! Which pieces of music the player has heard.

use vstd::prelude::*;
use crate::runtime::context;
use crate::runtime::context::{
    find_number, BgmEntry, CommandContext, FormError, Globals, Tables,
};
use crate::runtime::forms::prop_access;
use crate::runtime::forms::prop_access::current_op_from_ctx_or_args;
use crate::runtime::value;
use crate::runtime::value::{arg_i64_or, arg_text, push_int, Value};
use crate::text;
use crate::text::{lower_chars, text_of};
use crate::text_parts;
use crate::text_parts::{same_chars, trim};

verus! {

/// A name without the white space around it, in small letters.
pub open spec fn normalized(name: Seq<char>) -> Seq<char> {
    text::lower(text_parts::trimmed(name))
}

fn normalize_name(name: &str) -> (r: Vec<char>)
    ensures
        r@ == normalized(name@),
{
    let t = trim(name);
    lower_chars(t.as_str())
}

/// How many pieces of music the configuration declares.
pub open spec fn declared_count(tables: Tables) -> int {
    match tables.gameexe {
        Some(cfg) => match context::config_number(tables, "BGM.CNT"@) {
            Some(n) => n as int,
            None => cfg.bgm@.len() as int,
        },
        None => 0,
    }
}

fn bgm_declared_count(tables: &Tables) -> (n: usize)
    requires
        tables.gameexe matches Some(cfg) ==> cfg.numbers.wf(),
    ensures
        n == declared_count(*tables),
{
    match &tables.gameexe {
        Some(cfg) => match find_number(tables, "BGM.CNT") {
            Some(n) => n,
            None => cfg.bgm.len(),
        },
        None => 0,
    }
}

/// The name under which an entry is registered.
pub open spec fn entry_name(entry: BgmEntry) -> Option<Seq<char>> {
    match entry.first_item {
        Some(s) => Some(s@),
        None => match entry.regist_name {
            Some(s) => Some(s@),
            None => match entry.whole {
                Some(s) => Some(s@),
                None => None,
            },
        },
    }
}

/// The name under which a piece is registered.
pub open spec fn registered_name(tables: Tables, index: int) -> Option<Seq<char>> {
    match tables.gameexe {
        Some(cfg) => if 0 <= index < cfg.bgm@.len() {
            entry_name(cfg.bgm@[index])
        } else {
            None
        },
        None => None,
    }
}

fn bgm_regist_name(tables: &Tables, index: usize) -> (r: Option<&str>)
    ensures
        match r {
            Some(name) => registered_name(*tables, index as int) == Some(name@),
            None => registered_name(*tables, index as int) is None,
        },
{
    match &tables.gameexe {
        Some(cfg) => {
            if index >= cfg.bgm.len() {
                return None;
            }
            let entry = &cfg.bgm[index];
            match &entry.first_item {
                Some(s) => Some(s.as_str()),
                None => match &entry.regist_name {
                    Some(s) => Some(s.as_str()),
                    None => match &entry.whole {
                        Some(s) => Some(s.as_str()),
                        None => None,
                    },
                },
            }
        },
        None => None,
    }
}

/// Whether the piece `index` goes by `name`.
pub open spec fn goes_by(tables: Tables, name: Seq<char>, index: int) -> bool {
    registered_name(tables, index) matches Some(own) && normalized(own) == normalized(name)
}

/// Whether `index` is the first declared piece that goes by `name`.
pub open spec fn first_by_name(tables: Tables, name: Seq<char>, index: int) -> bool {
    &&& 0 <= index < declared_count(tables)
    &&& goes_by(tables, name, index)
    &&& forall|k: int| 0 <= k < index ==> !#[trigger] goes_by(tables, name, k)
}

/// The number of the piece that goes by `name`.
pub open spec fn number_by_name(tables: Tables, name: Seq<char>) -> Option<int> {
    if exists|i: int| first_by_name(tables, name, i) {
        Some(choose|i: int| first_by_name(tables, name, i))
    } else {
        None
    }
}

fn bgm_no_by_regist_name(tables: &Tables, name: &str) -> (r: Option<usize>)
    requires
        tables.gameexe matches Some(cfg) ==> cfg.numbers.wf(),
    ensures
        match r {
            Some(i) => first_by_name(*tables, name@, i as int) && number_by_name(*tables, name@)
                == Some(i as int) && i < usize::MAX,
            None => number_by_name(*tables, name@) is None,
        },
{
    let needle = normalize_name(name);
    let count: usize = bgm_declared_count(tables);
    let mut i: usize = 0;
    while i < count
        invariant
            needle@ == normalized(name@),
            count == declared_count(*tables),
            i <= count,
            forall|k: int| 0 <= k < i ==> !#[trigger] goes_by(*tables, name@, k),
        decreases count - i,
    {
        if let Some(own) = bgm_regist_name(tables, i) {
            let key = normalize_name(own);
            if same_chars(key.as_slice(), needle.as_slice()) {
                proof {
                    assert(first_by_name(*tables, name@, i as int));
                    let j = choose|j: int| first_by_name(*tables, name@, j);
                    assert(first_by_name(*tables, name@, j));
                    if j < i {
                        assert(!goes_by(*tables, name@, j));
                    } else if i < j {
                        assert(!goes_by(*tables, name@, i as int));
                    }
                }
                return Some(i);
            }
        }
        i = i + 1;
    }
    None
}

/// The flags with `all` behind them up to the length `n`.
pub open spec fn padded(flags: Seq<bool>, n: int, all: bool) -> Seq<bool> {
    if flags.len() >= n {
        flags
    } else {
        flags + Seq::new((n - flags.len()) as nat, |i: int| all)
    }
}

/// The flags, one for each declared piece at least.
pub open spec fn flags_of(ctx: CommandContext) -> Seq<bool> {
    padded(
        ctx.globals.bgm_table_flags@,
        declared_count(ctx.tables),
        ctx.globals.bgm_table_all_flag,
    )
}

/// Whether nothing but the music table and the stack differs.
pub open spec fn only_table_changes(before: CommandContext, after: CommandContext) -> bool {
    after == (CommandContext {
        stack: after.stack,
        globals: (Globals {
            bgm_table_flags: after.globals.bgm_table_flags,
            bgm_table_all_flag: after.globals.bgm_table_all_flag,
            bgm_table_listened: after.globals.bgm_table_listened,
            ..before.globals
        }),
        ..before
    })
}

fn ensure_bgm_flags_size(ctx: &mut CommandContext)
    requires
        old(ctx).wf(),
    ensures
        final(ctx).globals.bgm_table_flags@ == flags_of(*old(ctx)),
        final(ctx).globals.bgm_table_all_flag == old(ctx).globals.bgm_table_all_flag,
        final(ctx).globals.bgm_table_listened == old(ctx).globals.bgm_table_listened,
        only_table_changes(*old(ctx), *final(ctx)),
        final(ctx).stack == old(ctx).stack,
{
    let count: usize = bgm_declared_count(&ctx.tables);
    if ctx.globals.bgm_table_flags.len() < count {
        let all: bool = ctx.globals.bgm_table_all_flag;
        ctx.globals.bgm_table_flags.resize(count, all);
        proof {
            assert(ctx.globals.bgm_table_flags@ =~= flags_of(*old(ctx)));
        }
    }
}

/// Notes whether the piece that goes by `name` has been heard. It answers
/// whether there is one.
pub fn mark_listened_by_name(ctx: &mut CommandContext, name: &str, listened: bool) -> (r: bool)
    requires
        old(ctx).wf(),
    ensures
        final(ctx).wf(),
        only_table_changes(*old(ctx), *final(ctx)),
        final(ctx).stack == old(ctx).stack,
        final(ctx).globals.bgm_table_all_flag == old(ctx).globals.bgm_table_all_flag,
        r == number_by_name(old(ctx).tables, name@) is Some,
        match number_by_name(old(ctx).tables, name@) {
            Some(i) => {
                &&& final(ctx).globals.bgm_table_flags@ == flags_of(*old(ctx)).update(i, listened)
                &&& final(ctx).globals.bgm_table_listened@
                    == old(ctx).globals.bgm_table_listened@.insert(normalized(name@), listened)
            },
            None => {
                &&& final(ctx).globals.bgm_table_flags@ == flags_of(*old(ctx))
                &&& final(ctx).globals.bgm_table_listened == old(ctx).globals.bgm_table_listened
            },
        },
{
    ensure_bgm_flags_size(ctx);
    let key = normalize_name(name);
    match bgm_no_by_regist_name(&ctx.tables, name) {
        Some(index) => {
            ctx.globals.bgm_table_flags.set(index, listened);
            ctx.globals.bgm_table_listened.insert(text_of(key.as_slice()), listened);
            true
        },
        None => false,
    }
}

/// How many pieces the table counts.
pub open spec fn table_count(ctx: CommandContext) -> int {
    let declared = declared_count(ctx.tables);
    let flags = ctx.globals.bgm_table_flags@.len() as int;
    let heard = ctx.globals.bgm_table_listened.entries@.len() as int;
    let most = if declared >= flags {
        declared
    } else {
        flags
    };
    if most >= heard {
        most
    } else {
        heard
    }
}

fn bgm_count(ctx: &CommandContext) -> (n: usize)
    requires
        ctx.wf(),
    ensures
        n == table_count(*ctx),
{
    let declared: usize = bgm_declared_count(&ctx.tables);
    let flags: usize = ctx.globals.bgm_table_flags.len();
    let heard: usize = ctx.globals.bgm_table_listened.len();
    let most: usize = if declared >= flags {
        declared
    } else {
        flags
    };
    if most >= heard {
        most
    } else {
        heard
    }
}

/// The answer to the question whether a piece has been heard: -1 where there
/// is no such piece.
pub open spec fn heard_answer(ctx: CommandContext, name: Seq<char>) -> int {
    match number_by_name(ctx.tables, name) {
        Some(i) => if flags_of(ctx)[i] {
            1
        } else {
            0
        },
        None => -1,
    }
}

/// Whether a command has had its effect, and no other.
pub open spec fn took_effect(
    before: CommandContext,
    after: CommandContext,
    op: i32,
    params: Seq<Value>,
) -> bool {
    let ops = before.ids.bgm_table;
    let name = value::text_at(params, 0);
    &&& only_table_changes(before, after)
    &&& if op == ops.get_count {
        &&& value::pushed_int(before.stack@, after.stack@, table_count(before) as i64 as int)
        &&& after.globals == before.globals
    } else if op == ops.get_listen_by_name {
        match name {
            None => {
                &&& value::pushed_int(before.stack@, after.stack@, -1)
                &&& after.globals == before.globals
            },
            Some(s) => {
                &&& value::pushed_int(before.stack@, after.stack@, heard_answer(before, s))
                &&& after.globals.bgm_table_flags@ == flags_of(before)
                &&& after.globals.bgm_table_all_flag == before.globals.bgm_table_all_flag
                &&& after.globals.bgm_table_listened == before.globals.bgm_table_listened
            },
        }
    } else if op == ops.set_listen_current {
        let listened = value::int_or(params, 1, 0) != 0;
        &&& after.stack == before.stack
        &&& after.globals.bgm_table_all_flag == before.globals.bgm_table_all_flag
        &&& match name {
            None => after.globals == before.globals,
            Some(s) => match number_by_name(before.tables, s) {
                Some(i) => {
                    &&& after.globals.bgm_table_flags@ == flags_of(before).update(i, listened)
                    &&& after.globals.bgm_table_listened@
                        == before.globals.bgm_table_listened@.insert(normalized(s), listened)
                },
                None => {
                    &&& after.globals.bgm_table_flags@ == flags_of(before)
                    &&& after.globals.bgm_table_listened == before.globals.bgm_table_listened
                },
            },
        }
    } else {
        let listened = value::int_or(params, 0, 0) != 0;
        let count = if declared_count(before.tables) > before.globals.bgm_table_flags@.len() {
            declared_count(before.tables)
        } else {
            before.globals.bgm_table_flags@.len() as int
        };
        &&& after.stack == before.stack
        &&& after.globals.bgm_table_all_flag == listened
        &&& after.globals.bgm_table_flags@ == Seq::new(count as nat, |i: int| listened)
        &&& after.globals.bgm_table_listened@ == before.globals.bgm_table_listened@.map_values(
            |v: bool| listened,
        )
    }
}

pub open spec fn known_op(ctx: CommandContext, op: i32) -> bool {
    let ops = ctx.ids.bgm_table;
    op == ops.get_count || op == ops.get_listen_by_name || op == ops.set_listen_current || op
        == ops.set_all_flag
}

/// Carries out a command on the music table.
pub fn dispatch(ctx: &mut CommandContext, args: &[Value]) -> (r: Result<bool, FormError>)
    requires
        old(ctx).wf(),
    ensures
        final(ctx).wf(),
        match prop_access::command_op(*old(ctx), args@) {
            None => r == Err::<bool, FormError>(FormError::MissingOpcode) && *final(ctx) == *old(
                ctx,
            ),
            Some(op) => if known_op(*old(ctx), op) {
                &&& r == Ok::<bool, FormError>(true)
                &&& took_effect(
                    *old(ctx),
                    *final(ctx),
                    op,
                    prop_access::params_without_op(*old(ctx), args@),
                )
            } else {
                r == Err::<bool, FormError>(FormError::InvalidOpcode(op)) && *final(ctx) == *old(
                    ctx,
                )
            },
        },
{
    let (found, start) = current_op_from_ctx_or_args(ctx, args);
    let op: i32 = match found {
        Some(op) => op,
        None => {
            return Err(FormError::MissingOpcode);
        },
    };
    let params = vstd::slice::slice_subrange(args, start, args.len());
    proof {
        assert(params@ =~= args@.skip(start as int));
    }
    let ops = ctx.ids.bgm_table;
    if op == ops.get_count {
        let n: i64 = bgm_count(ctx) as i64;
        push_int(&mut ctx.stack, n);
        Ok(true)
    } else if op == ops.get_listen_by_name {
        match arg_text(params, 0) {
            None => {
                push_int(&mut ctx.stack, -1);
            },
            Some(name) => {
                ensure_bgm_flags_size(ctx);
                let answer: i64 = match bgm_no_by_regist_name(&ctx.tables, name) {
                    Some(index) => if ctx.globals.bgm_table_flags[index] {
                        1
                    } else {
                        0
                    },
                    None => -1,
                };
                push_int(&mut ctx.stack, answer);
            },
        }
        Ok(true)
    } else if op == ops.set_listen_current {
        if let Some(name) = arg_text(params, 0) {
            let listened: bool = arg_i64_or(params, 1, 0) != 0;
            let _found: bool = mark_listened_by_name(ctx, name, listened);
        }
        Ok(true)
    } else if op == ops.set_all_flag {
        let listened: bool = arg_i64_or(params, 0, 0) != 0;
        set_all(ctx, listened);
        Ok(true)
    } else {
        Err(FormError::InvalidOpcode(op))
    }
}

fn set_all(ctx: &mut CommandContext, listened: bool)
    requires
        old(ctx).wf(),
    ensures
        final(ctx).wf(),
        only_table_changes(*old(ctx), *final(ctx)),
        final(ctx).stack == old(ctx).stack,
        final(ctx).globals.bgm_table_all_flag == listened,
        final(ctx).globals.bgm_table_flags@ == Seq::new(
            (if declared_count(old(ctx).tables) > old(ctx).globals.bgm_table_flags@.len() {
                declared_count(old(ctx).tables)
            } else {
                old(ctx).globals.bgm_table_flags@.len() as int
            }) as nat,
            |i: int| listened,
        ),
        final(ctx).globals.bgm_table_listened@ == old(ctx).globals.bgm_table_listened@.map_values(
            |v: bool| listened,
        ),
{
    ctx.globals.bgm_table_all_flag = listened;
    ensure_bgm_flags_size(ctx);
    let count: usize = ctx.globals.bgm_table_flags.len();
    ctx.globals.bgm_table_flags.clear();
    ctx.globals.bgm_table_flags.resize(count, listened);
    proof {
        assert(ctx.globals.bgm_table_flags@ =~= Seq::new(count as nat, |i: int| listened));
    }
    ctx.globals.bgm_table_listened.set_all(listened);
}

/// A piece that was marked answers with its mark.
pub proof fn marked_piece_is_remembered(
    before: CommandContext,
    after: CommandContext,
    name: Seq<char>,
    listened: bool,
)
    requires
        number_by_name(before.tables, name) is Some,
        after.tables == before.tables,
        after.globals.bgm_table_flags@ == flags_of(before).update(
            number_by_name(before.tables, name)->0,
            listened,
        ),
    ensures
        heard_answer(after, name) == (if listened {
            1int
        } else {
            0int
        }),
{
    let i = number_by_name(before.tables, name)->0;
    assert(first_by_name(before.tables, name, i));
}

/// A piece is found by its name in whatever size its ASCII letters are written,
/// and the first of those with that name is found. A piece that is not in the
/// table is answered with -1.
pub proof fn pieces_are_found_by_name(ctx: CommandContext, name: Seq<char>, other: Seq<char>, i: int)
    requires
        text::lower(text_parts::trimmed(name)) == text::lower(text_parts::trimmed(other)),
    ensures
        number_by_name(ctx.tables, name) == number_by_name(ctx.tables, other),
        heard_answer(ctx, name) == heard_answer(ctx, other),
        number_by_name(ctx.tables, name) is None ==> heard_answer(ctx, name) == -1,
        number_by_name(ctx.tables, name) matches Some(k) ==> 0 <= k < declared_count(ctx.tables) && (
        registered_name(ctx.tables, k) matches Some(own) && text::lower(text_parts::trimmed(own))
            == text::lower(text_parts::trimmed(name))) && (0 <= i < k ==> !(registered_name(
            ctx.tables,
            i,
        ) matches Some(own) && text::lower(text_parts::trimmed(own)) == text::lower(
            text_parts::trimmed(name),
        ))),
{
    assert forall|k: int| first_by_name(ctx.tables, name, k) == first_by_name(
        ctx.tables,
        other,
        k,
    ) by {
        assert(goes_by(ctx.tables, name, k) == goes_by(ctx.tables, other, k));
        if first_by_name(ctx.tables, name, k) {
            assert forall|j: int| 0 <= j < k implies !#[trigger] goes_by(ctx.tables, other, j) by {
                assert(!goes_by(ctx.tables, name, j));
            }
        }
        if first_by_name(ctx.tables, other, k) {
            assert forall|j: int| 0 <= j < k implies !#[trigger] goes_by(ctx.tables, name, j) by {
                assert(!goes_by(ctx.tables, other, j));
            }
        }
    }
    assert((|k: int| first_by_name(ctx.tables, name, k)) =~= (|k: int|
        first_by_name(ctx.tables, other, k)));
    if number_by_name(ctx.tables, name) is Some {
        let k = number_by_name(ctx.tables, name)->0;
        assert(first_by_name(ctx.tables, name, k));
        if 0 <= i < k {
            assert(!goes_by(ctx.tables, name, i));
        }
        let m = number_by_name(ctx.tables, other)->0;
        assert(first_by_name(ctx.tables, other, m));
        if k < m {
            assert(!goes_by(ctx.tables, other, k));
        } else if m < k {
            assert(!goes_by(ctx.tables, name, m));
        }
    } else if exists|k: int| first_by_name(ctx.tables, other, k) {
        let m = choose|m: int| first_by_name(ctx.tables, other, m);
        assert(first_by_name(ctx.tables, name, m));
    }
}

/// When all pieces are marked, or none, every piece of the table is answered so.
pub proof fn marks_for_all_reach_every_piece(
    before: CommandContext,
    after: CommandContext,
    op: i32,
    on: i64,
    name: Seq<char>,
)
    requires
        took_effect(before, after, op, seq![Value::Int(on)]),
        op != before.ids.bgm_table.get_count,
        op != before.ids.bgm_table.get_listen_by_name,
        op != before.ids.bgm_table.set_listen_current,
        number_by_name(before.tables, name) is Some,
    ensures
        heard_answer(after, name) == (if on != 0 {
            1int
        } else {
            0int
        }),
{
    let i = number_by_name(before.tables, name)->0;
    assert(first_by_name(before.tables, name, i));
    assert(after.tables == before.tables);
    assert(seq![Value::Int(on)][0] == Value::Int(on));
}

/// A piece that is marked leaves the marks of all others as they are, and asking
/// changes no mark.
pub proof fn other_pieces_keep_their_marks(
    before: CommandContext,
    after: CommandContext,
    op: i32,
    params: Seq<Value>,
    i: int,
    other: Seq<char>,
)
    requires
        took_effect(before, after, op, params),
        op == before.ids.bgm_table.set_listen_current || op
            == before.ids.bgm_table.get_listen_by_name,
        before.ids.bgm_table.get_count != before.ids.bgm_table.set_listen_current,
        before.ids.bgm_table.get_count != before.ids.bgm_table.get_listen_by_name,
        before.ids.bgm_table.set_listen_current != before.ids.bgm_table.get_listen_by_name,
        number_by_name(before.tables, other) == Some(i),
        op == before.ids.bgm_table.set_listen_current ==> (value::text_at(params, 0) matches Some(
            name,
        ) ==> number_by_name(before.tables, name) != Some(i)),
    ensures
        heard_answer(after, other) == heard_answer(before, other),
{
    assert(first_by_name(before.tables, other, i));
    assert(after.tables == before.tables);
}

} // verus!
