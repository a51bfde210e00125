//! The commands for achievements. They are accepted, and nothing is sent: no
//! account is touched.

use vstd::prelude::*;
use crate::runtime::context::{CommandContext, FormError, Request};
use crate::runtime::forms::prop_access;
use crate::runtime::forms::prop_access::parse_element_chain_ctx;
use crate::runtime::value;
use crate::runtime::value::{push_int, Value};

verus! {

/// Whether an operation is one of the two commands.
pub open spec fn accepted(ctx: CommandContext, op: i32) -> bool {
    ||| ctx.ids.steam_set_achievement != 0 && op == ctx.ids.steam_set_achievement
    ||| ctx.ids.steam_reset_all_status != 0 && op == ctx.ids.steam_reset_all_status
}

/// What is asked of the host for a command that has no rule here.
pub open spec fn fallback(ctx: CommandContext, form_id: u32) -> Request {
    match prop_access::call_path(ctx.vm_call, form_id) {
        Some(path) => if path.len() >= 2 {
            Request::Property { form: form_id, op: path[1] }
        } else {
            Request::StatefulForm { form: form_id }
        },
        None => Request::StatefulForm { form: form_id },
    }
}

/// Carries out a command for achievements.
pub fn dispatch(ctx: &mut CommandContext, form_id: u32, _args: &[Value]) -> (r: Result<
    bool,
    FormError,
>)
    ensures
        r == Ok::<bool, FormError>(true),
        ({
            let path = prop_access::call_path(old(ctx).vm_call, form_id);
            if path is Some && path->0.len() >= 2 && accepted(*old(ctx), path->0[1]) {
                &&& *final(ctx) == (CommandContext { stack: final(ctx).stack, ..*old(ctx) })
                &&& value::pushed_int(old(ctx).stack@, final(ctx).stack@, 0)
            } else {
                &&& *final(ctx) == (CommandContext { requests: final(ctx).requests, ..*old(ctx) })
                &&& final(ctx).requests@ == old(ctx).requests@.push(fallback(*old(ctx), form_id))
            }
        }),
{
    if let Some(chain) = parse_element_chain_ctx(ctx, form_id) {
        if chain.len() >= 2 {
            let op: i32 = chain[1];
            let set: i32 = ctx.ids.steam_set_achievement;
            let reset: i32 = ctx.ids.steam_reset_all_status;
            if (set != 0 && op == set) || (reset != 0 && op == reset) {
                push_int(&mut ctx.stack, 0);
                return Ok(true);
            }
            ctx.requests.push(Request::Property { form: form_id, op });
            return Ok(true);
        }
    }
    ctx.requests.push(Request::StatefulForm { form: form_id });
    Ok(true)
}

} // verus!
