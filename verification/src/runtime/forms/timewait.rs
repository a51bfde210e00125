//! Waiting for a time.

use vstd::prelude::*;
use crate::runtime::context::{CommandContext, FormError, Request};
use crate::runtime::value;
use crate::runtime::value::{arg_i64_or, push_int, Value};
use crate::runtime::wait::{VmWait, WaitTarget};

verus! {

/// Makes the script wait for as many milliseconds as the first argument says.
/// No time is over at once; a wait that a key may end then leaves the result
/// of a wait that ran out.
pub fn dispatch(ctx: &mut CommandContext, allow_key_skip: bool, args: &[Value]) -> (r: Result<
    bool,
    FormError,
>)
    ensures
        r == Ok::<bool, FormError>(true),
        value::int_or(args@, 0, 0) <= 0 && allow_key_skip ==> {
            &&& *final(ctx) == (CommandContext { stack: final(ctx).stack, ..*old(ctx) })
            &&& value::pushed_int(old(ctx).stack@, final(ctx).stack@, 0)
        },
        value::int_or(args@, 0, 0) <= 0 && !allow_key_skip ==> *final(ctx) == *old(ctx),
        value::int_or(args@, 0, 0) > 0 ==> {
            &&& *final(ctx) == (CommandContext {
                wait: (VmWait {
                    target: WaitTarget::Time {
                        ms: value::int_or(args@, 0, 0) as u64,
                        key: allow_key_skip,
                    },
                    ..old(ctx).wait
                }),
                requests: final(ctx).requests,
                ..*old(ctx)
            })
            &&& final(ctx).requests@ == old(ctx).requests@.push(Request::WaitBoundary)
        },
{
    let ms: i64 = arg_i64_or(args, 0, 0);
    if ms <= 0 {
        if allow_key_skip {
            push_int(&mut ctx.stack, 0);
        }
        return Ok(true);
    }
    ctx.wait.target = WaitTarget::Time { ms: ms as u64, key: allow_key_skip };
    ctx.requests.push(Request::WaitBoundary);
    Ok(true)
}

} // verus!
