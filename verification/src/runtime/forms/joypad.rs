//! The keys of the joypad. They are asked by a path of the form: the form,
//! 0, the array, the key and the question.

use vstd::prelude::*;
use crate::runtime::context::{CommandContext, FormError, KeyState};
use crate::runtime::value;
use crate::runtime::value::{push_int, Value};

verus! {

/// Whether a path addresses a key.
pub open spec fn addresses_key(ctx: CommandContext) -> bool {
    match ctx.vm_call {
        None => false,
        Some(meta) => {
            &&& meta.element@.len() >= 4
            &&& meta.element@[0] == ctx.ids.form_global_joypad as i32
            &&& meta.element@[1] == 0
            &&& meta.element@[2] == ctx.ids.elm_array
        },
    }
}

pub open spec fn path(ctx: CommandContext) -> Seq<i32> {
    match ctx.vm_call {
        None => Seq::empty(),
        Some(meta) => meta.element@,
    }
}

/// The answer of a key to a question, where the question is known. Asking
/// does not use up what is stocked.
pub open spec fn answer(ctx: CommandContext, key: KeyState, op: i32) -> Option<bool> {
    if op == ctx.ids.key.on_down {
        Some(key.down_stock)
    } else if op == ctx.ids.key.on_up {
        Some(key.up_stock)
    } else if op == ctx.ids.key.on_down_up {
        Some(key.down_up_stock)
    } else if op == ctx.ids.key.is_down {
        Some(key.is_down)
    } else if op == ctx.ids.key.is_up {
        Some(!key.is_down)
    } else {
        None
    }
}

/// Whether `after` is `before` with one more value on the stack.
pub open spec fn only_pushed(before: CommandContext, after: CommandContext) -> bool {
    &&& after == (CommandContext { stack: after.stack, ..before })
    &&& after.stack@.len() == before.stack@.len() + 1
    &&& after.stack@.drop_last() == before.stack@
}

/// Answers a question to a key. A path that ends with the key gives back the
/// key itself, and one that is no key's is left to others.
pub fn dispatch(ctx: &mut CommandContext, _args: &[Value]) -> (r: Result<bool, FormError>)
    ensures
        !addresses_key(*old(ctx)) ==> r == Ok::<bool, FormError>(false) && *final(ctx) == *old(ctx),
        addresses_key(*old(ctx)) && path(*old(ctx)).len() == 4 ==> {
            &&& r == Ok::<bool, FormError>(true)
            &&& only_pushed(*old(ctx), *final(ctx))
            &&& final(ctx).stack@.last() matches Value::Element(e) && e@ == path(*old(ctx))
        },
        addresses_key(*old(ctx)) && path(*old(ctx)).len() > 4 ==> {
            let no = path(*old(ctx))[3];
            let op = path(*old(ctx))[4];
            if no < 0 || no >= old(ctx).joypad@.len() {
                &&& r == Err::<bool, FormError>(FormError::JoypadKeyOutOfRange(no))
                &&& *final(ctx) == *old(ctx)
            } else {
                match answer(*old(ctx), old(ctx).joypad@[no as int], op) {
                    Some(v) => {
                        &&& r == Ok::<bool, FormError>(true)
                        &&& *final(ctx) == (CommandContext { stack: final(ctx).stack, ..*old(ctx) })
                        &&& value::pushed_int(
                            old(ctx).stack@,
                            final(ctx).stack@,
                            if v {
                                1
                            } else {
                                0
                            },
                        )
                    },
                    None => {
                        &&& r == Err::<bool, FormError>(FormError::UnsupportedJoypadOperation(op))
                        &&& *final(ctx) == *old(ctx)
                    },
                }
            }
        },
{
    let chain: Vec<i32> = match &ctx.vm_call {
        None => {
            return Ok(false);
        },
        Some(meta) => vstd::slice::slice_to_vec(meta.element.as_slice()),
    };
    if chain.len() < 4 || chain[0] != ctx.ids.form_global_joypad as i32 {
        return Ok(false);
    }
    if chain[1] != 0 || chain[2] != ctx.ids.elm_array {
        return Ok(false);
    }
    if chain.len() == 4 {
        ctx.stack.push(Value::Element(chain));
        proof {
            assert(ctx.stack@.drop_last() =~= old(ctx).stack@);
        }
        return Ok(true);
    }
    let no: i32 = chain[3];
    let op: i32 = chain[4];
    if no < 0 || no as usize >= ctx.joypad.len() {
        return Err(FormError::JoypadKeyOutOfRange(no));
    }
    let key: KeyState = ctx.joypad[no as usize];
    let ops = ctx.ids.key;
    let v: bool = if op == ops.on_down {
        key.down_stock
    } else if op == ops.on_up {
        key.up_stock
    } else if op == ops.on_down_up {
        key.down_up_stock
    } else if op == ops.is_down {
        key.is_down
    } else if op == ops.is_up {
        !key.is_down
    } else {
        return Err(FormError::UnsupportedJoypadOperation(op));
    };
    push_int(
        &mut ctx.stack,
        if v {
            1
        } else {
            0
        },
    );
    Ok(true)
}

/// A key that is held is down and not up, one that is not held is up, and the
/// strokes that are stocked are answered without being used up: asking twice
/// gives the same answer.
pub proof fn keys_are_down_or_up(ctx: CommandContext, key: KeyState)
    requires
        ctx.ids.key.is_down != ctx.ids.key.is_up,
        ctx.ids.key.on_down != ctx.ids.key.is_down,
        ctx.ids.key.on_up != ctx.ids.key.is_down,
        ctx.ids.key.on_down_up != ctx.ids.key.is_down,
        ctx.ids.key.on_down != ctx.ids.key.is_up,
        ctx.ids.key.on_up != ctx.ids.key.is_up,
        ctx.ids.key.on_down_up != ctx.ids.key.is_up,
        ctx.ids.key.on_down != ctx.ids.key.on_up,
        ctx.ids.key.on_down != ctx.ids.key.on_down_up,
        ctx.ids.key.on_up != ctx.ids.key.on_down_up,
    ensures
        answer(ctx, key, ctx.ids.key.is_down) == Some(key.is_down),
        answer(ctx, key, ctx.ids.key.is_up) is Some,
        answer(ctx, key, ctx.ids.key.is_up) != answer(ctx, key, ctx.ids.key.is_down),
        answer(ctx, key, ctx.ids.key.on_down) == Some(key.down_stock),
        answer(ctx, key, ctx.ids.key.on_up) == Some(key.up_stock),
        answer(ctx, key, ctx.ids.key.on_down_up) == Some(key.down_up_stock),
{
}

} // verus!
