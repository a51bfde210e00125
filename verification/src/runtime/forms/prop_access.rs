//! How commands find their element path, operation and arguments.

use vstd::prelude::*;
use vstd::slice::slice_subrange;
use crate::runtime::context::{CommandContext, VmCallMeta};
use crate::runtime::value::Value;

verus! {

/// Whether a path belongs to a form.
pub open spec fn belongs(element: Seq<i32>, form_id: u32) -> bool {
    element.len() > 0 && element[0] as u32 == form_id
}

/// Whether the argument at `i` is a path of the form and none before it is.
pub open spec fn first_path_at(args: Seq<Value>, form_id: u32, i: int) -> bool {
    &&& 0 <= i < args.len()
    &&& is_path_of(args[i], form_id)
    &&& forall|k: int| 0 <= k < i ==> !is_path_of(#[trigger] args[k], form_id)
}

pub open spec fn is_path_of(v: Value, form_id: u32) -> bool {
    v matches Value::Element(e) && belongs(e@, form_id)
}

/// The path of the current call, where it belongs to the form. All arguments
/// then belong to the script.
pub open spec fn call_path(call: Option<VmCallMeta>, form_id: u32) -> Option<Seq<i32>> {
    match call {
        Some(meta) => if belongs(meta.element@, form_id) {
            Some(meta.element@)
        } else {
            None
        },
        None => None,
    }
}

/// The first path of the form among the arguments.
pub open spec fn argument_path(args: Seq<Value>, form_id: u32) -> Option<int> {
    if exists|i: int| first_path_at(args, form_id, i) {
        Some(choose|i: int| first_path_at(args, form_id, i))
    } else {
        None
    }
}

pub open spec fn path_of(v: Value) -> Seq<i32> {
    match v {
        Value::Element(e) => e@,
        _ => Seq::empty(),
    }
}

/// The path of a command: that of the call, or else the first one among the
/// arguments.
pub open spec fn command_path(ctx: CommandContext, form_id: u32, args: Seq<Value>) -> Option<
    Seq<i32>,
> {
    match call_path(ctx.vm_call, form_id) {
        Some(path) => Some(path),
        None => match argument_path(args, form_id) {
            Some(i) => Some(path_of(args[i])),
            None => None,
        },
    }
}

/// The arguments that belong to the script: all before the path.
pub open spec fn command_params(ctx: CommandContext, form_id: u32, args: Seq<Value>) -> Seq<Value> {
    match call_path(ctx.vm_call, form_id) {
        Some(_) => args,
        None => match argument_path(args, form_id) {
            Some(i) => args.take(i),
            None => args,
        },
    }
}

pub open spec fn call_al_id(ctx: CommandContext) -> int {
    match ctx.vm_call {
        Some(meta) => meta.al_id as int,
        None => 0,
    }
}

pub open spec fn call_ret_form(ctx: CommandContext) -> Option<i64> {
    match ctx.vm_call {
        Some(meta) => Some(meta.ret_form),
        None => None,
    }
}

fn copy_path(path: &Vec<i32>) -> (r: Vec<i32>)
    ensures
        r@ == path@,
{
    vstd::slice::slice_to_vec(path.as_slice())
}

/// The path of the current call, where it belongs to the form.
pub fn parse_element_chain_ctx(ctx: &CommandContext, form_id: u32) -> (r: Option<Vec<i32>>)
    ensures
        match r {
            Some(path) => call_path(ctx.vm_call, form_id) == Some(path@),
            None => call_path(ctx.vm_call, form_id) is None,
        },
{
    match &ctx.vm_call {
        Some(meta) => if meta.element.len() > 0 && meta.element[0] as u32 == form_id {
            Some(copy_path(&meta.element))
        } else {
            None
        },
        None => None,
    }
}

/// The place of the first path of the form among the arguments.
pub fn parse_element_chain(form_id: u32, args: &[Value]) -> (r: Option<usize>)
    ensures
        match r {
            Some(i) => first_path_at(args@, form_id, i as int) && argument_path(args@, form_id)
                == Some(i as int),
            None => argument_path(args@, form_id) is None,
        },
{
    let mut i: usize = 0;
    while i < args.len()
        invariant
            i <= args@.len(),
            forall|k: int| 0 <= k < i ==> !is_path_of(#[trigger] args@[k], form_id),
        decreases args@.len() - i,
    {
        let found: bool = match &args[i] {
            Value::Element(e) => e.len() > 0 && e[0] as u32 == form_id,
            _ => false,
        };
        if found {
            proof {
                assert(first_path_at(args@, form_id, i as int));
                let j = choose|j: int| first_path_at(args@, form_id, j);
                assert(first_path_at(args@, form_id, j));
                if j < i {
                    assert(!is_path_of(args@[j], form_id));
                } else if i < j {
                    assert(!is_path_of(args@[i as int], form_id));
                }
            }
            return Some(i);
        }
        i = i + 1;
    }
    None
}

/// The path of a command and how many of its arguments belong to the script.
pub fn find_path(ctx: &CommandContext, form_id: u32, args: &[Value]) -> (r: Option<
    (Vec<i32>, usize),
>)
    ensures
        match r {
            Some((path, n)) => {
                &&& command_path(*ctx, form_id, args@) == Some(path@)
                &&& n <= args@.len()
                &&& command_params(*ctx, form_id, args@) == args@.take(n as int)
            },
            None => command_path(*ctx, form_id, args@) is None,
        },
{
    match parse_element_chain_ctx(ctx, form_id) {
        Some(path) => {
            proof {
                assert(args@.take(args@.len() as int) =~= args@);
            }
            Some((path, args.len()))
        },
        None => match parse_element_chain(form_id, args) {
            Some(i) => match &args[i] {
                Value::Element(e) => Some((copy_path(e), i)),
                _ => None,
            },
            None => None,
        },
    }
}

/// The arguments before the place `n`.
pub fn script_args(args: &[Value], n: usize) -> (r: &[Value])
    requires
        n <= args@.len(),
    ensures
        r@ == args@.take(n as int),
{
    let r = slice_subrange(args, 0, n);
    proof {
        assert(r@ =~= args@.take(n as int));
    }
    r
}

/// What the current call says of its argument list and its result.
pub fn current_vm_meta(ctx: &CommandContext) -> (r: (i64, Option<i64>))
    ensures
        r.0 == call_al_id(*ctx),
        r.1 == call_ret_form(*ctx),
{
    match &ctx.vm_call {
        Some(meta) => (meta.al_id, Some(meta.ret_form)),
        None => (0, None),
    }
}

/// The operation of a command that has no path of its own: the second number
/// of the call's path, or else the first argument.
pub open spec fn command_op(ctx: CommandContext, args: Seq<Value>) -> Option<i32> {
    match ctx.vm_call {
        Some(meta) => if meta.element@.len() >= 2 {
            Some(meta.element@[1])
        } else {
            first_as_op(args)
        },
        None => first_as_op(args),
    }
}

pub open spec fn first_as_op(args: Seq<Value>) -> Option<i32> {
    if args.len() > 0 {
        match args[0].number() {
            Some(v) => Some(v as i32),
            None => None,
        }
    } else {
        None
    }
}

/// Whether the operation stands among the arguments.
pub open spec fn op_in_args(ctx: CommandContext) -> bool {
    match ctx.vm_call {
        Some(meta) => meta.element@.len() < 2,
        None => true,
    }
}

/// The arguments without the operation.
pub open spec fn params_without_op(ctx: CommandContext, args: Seq<Value>) -> Seq<Value> {
    if op_in_args(ctx) && args.len() > 0 {
        args.skip(1)
    } else {
        args
    }
}

/// The operation of a command and the place of its first argument.
pub fn current_op_from_ctx_or_args(ctx: &CommandContext, args: &[Value]) -> (r: (
    Option<i32>,
    usize,
))
    ensures
        r.0 == command_op(*ctx, args@),
        r.1 <= args@.len(),
        params_without_op(*ctx, args@) == args@.skip(r.1 as int),
{
    let in_call: Option<i32> = match &ctx.vm_call {
        Some(meta) => if meta.element.len() >= 2 {
            Some(meta.element[1])
        } else {
            None
        },
        None => None,
    };
    if in_call.is_some() {
        proof {
            assert(args@.skip(0) =~= args@);
        }
        return (in_call, 0);
    }
    if args.len() == 0 {
        proof {
            assert(args@.skip(0) =~= args@);
        }
        return (None, 0);
    }
    match args[0].as_i64() {
        Some(v) => (Some(v as i32), 1),
        None => (None, 1),
    }
}

/// A command that comes with its path has its number behind the form, and all arguments are its
/// own. One that comes without a path has its number as the first argument.
pub proof fn commands_have_their_number(ctx: CommandContext, op: i32, rest: Seq<Value>)
    ensures
        (ctx.vm_call matches Some(meta) && meta.element@.len() >= 2) ==> {
            &&& command_op(ctx, rest) == Some(ctx.vm_call->0.element@[1])
            &&& params_without_op(ctx, rest) == rest
        },
        ctx.vm_call is None ==> {
            &&& command_op(ctx, seq![Value::Int(op as i64)] + rest) == Some(op)
            &&& params_without_op(ctx, seq![Value::Int(op as i64)] + rest) == rest
            &&& command_op(ctx, Seq::empty()) is None
        },
{
    assert((seq![Value::Int(op as i64)] + rest).skip(1) =~= rest);
}

/// Where a command comes without a path, the first argument that is a path of the form is its
/// path, and the arguments before it are its own.
pub proof fn paths_stand_behind_the_parameters(
    ctx: CommandContext,
    form_id: u32,
    front: Seq<Value>,
    path: Value,
    more: Seq<Value>,
)
    requires
        call_path(ctx.vm_call, form_id) is None,
        is_path_of(path, form_id),
        forall|i: int| 0 <= i < front.len() ==> !is_path_of(#[trigger] front[i], form_id),
    ensures
        command_path(ctx, form_id, front.push(path) + more) == Some(path_of(path)),
        command_params(ctx, form_id, front.push(path) + more) == front,
        command_path(ctx, form_id, front) is None,
        command_params(ctx, form_id, front) == front,
{
    let all = front.push(path) + more;
    let n: int = front.len() as int;
    assert(all[n] == path);
    assert forall|i: int| 0 <= i < n implies !is_path_of(#[trigger] all[i], form_id) by {
        assert(all[i] == front[i]);
    }
    assert(first_path_at(all, form_id, n));
    let k = choose|i: int| first_path_at(all, form_id, i);
    assert(k == n);
    assert(all.take(n) =~= front);
}

/// The path that a command comes with is taken before any among the arguments.
pub proof fn paths_of_the_call_come_first(
    ctx: CommandContext,
    meta: VmCallMeta,
    form_id: u32,
    args: Seq<Value>,
)
    requires
        ctx.vm_call == Some(meta),
        meta.element@.len() > 0,
        meta.element@[0] as u32 == form_id,
    ensures
        command_path(ctx, form_id, args) == Some(meta.element@),
        command_params(ctx, form_id, args) == args,
{
}

} // verus!
