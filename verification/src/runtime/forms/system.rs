//! The system commands: clock, files, message boxes and debug output.

use vstd::prelude::*;
use crate::number_text;
use crate::number_text::decimal_i64;
use crate::paths;
use crate::paths::{join_chars, slashed};
use crate::platform_time;
use crate::platform_time::{
    local_time_fields, log_timestamp, unix_time_secs, LocalTimeFields,
};
use crate::runtime::context::{
    CommandContext, Globals, MessageBoxButton, MessageBoxRecord, Request, SystemState,
};
use crate::runtime::forms::prop_access;
use crate::runtime::forms::prop_access::parse_element_chain_ctx;
use crate::runtime::value;
use crate::runtime::value::{arg_i64_or, arg_string, push_int, push_text, Value};
use crate::text::{chars_of, same_text, text_of};
use crate::text_parts;
use crate::text_parts::{join, trim};

verus! {

pub const CHECK_ACTIVE: i32 = 0;

pub const SHELL_OPEN_FILE: i32 = 1;

pub const CHECK_DUMMY_FILE_ONCE: i32 = 2;

pub const OPEN_DIALOG_FOR_CHIHAYA_BENCH: i32 = 3;

pub const GET_SPEC_INFO_FOR_CHIHAYA_BENCH: i32 = 4;

pub const SHELL_OPEN_WEB: i32 = 5;

pub const CHECK_FILE_EXIST: i32 = 6;

pub const DEBUG_MESSAGEBOX_OK: i32 = 7;

pub const DEBUG_MESSAGEBOX_OKCANCEL: i32 = 8;

pub const DEBUG_MESSAGEBOX_YESNO: i32 = 9;

pub const DEBUG_MESSAGEBOX_YESNOCANCEL: i32 = 10;

pub const DEBUG_WRITE_LOG: i32 = 11;

pub const CHECK_FILE_EXIST_SAVE_DIR: i32 = 12;

pub const CHECK_DEBUG_FLAG: i32 = 13;

pub const GET_CALENDAR: i32 = 14;

pub const GET_UNIX_TIME: i32 = 15;

pub const GET_LANGUAGE: i32 = 16;

pub const MESSAGEBOX_OK: i32 = 17;

pub const MESSAGEBOX_OKCANCEL: i32 = 18;

pub const MESSAGEBOX_YESNO: i32 = 19;

pub const MESSAGEBOX_YESNOCANCEL: i32 = 20;

pub const CLEAR_DUMMY_FILE: i32 = 21;

/// A path of the game: that of the script below `base`, unless it begins at
/// the root.
pub open spec fn game_path(base: Seq<char>, raw: Seq<char>) -> Seq<char> {
    if raw.len() == 0 {
        base
    } else {
        paths::joined(base, paths::with_slashes(raw))
    }
}

/// A path of the game.
pub fn join_game_path(base: &str, raw: &str) -> (r: String)
    ensures
        r@ == game_path(base@, raw@),
{
    let part = slashed(raw);
    if part.len() == 0 {
        return base.to_owned();
    }
    let b = chars_of(base);
    text_of(join_chars(b.as_slice(), part.as_slice()).as_slice())
}

/// The eight fields that a calendar command hands out, in their order.
pub open spec fn calendar_fields(t: LocalTimeFields) -> Seq<i64> {
    seq![
        t.year as i64,
        t.month as i64,
        t.day as i64,
        t.weekday_sunday0 as i64,
        t.hour as i64,
        t.minute as i64,
        t.second as i64,
        t.millisecond as i64,
    ]
}

/// Whether a request assigns `v` to the element that an argument names.
pub open spec fn assigns(request: Request, param: Value, v: i64) -> bool {
    &&& request matches Request::Assign { chain, value } && value == v && chain@
        == prop_access::path_of(param)
}

/// How many of the first `n` arguments name an element.
pub open spec fn elements_before(params: Seq<Value>, n: int) -> int
    decreases n,
{
    if n <= 0 {
        0
    } else {
        elements_before(params, n - 1) + if n <= params.len() && params[n - 1] is Element {
            1int
        } else {
            0int
        }
    }
}

/// Whether the requests assign the fields of `t`, each to the argument at its
/// place, where that names an element.
pub open spec fn assigns_fields(
    requests: Seq<Request>,
    t: LocalTimeFields,
    params: Seq<Value>,
) -> bool {
    &&& requests.len() == elements_before(params, 8)
    &&& forall|i: int|
        0 <= i < 8 && i < params.len() && #[trigger] params[i] is Element ==> assigns(
            requests[elements_before(params, i)],
            params[i],
            calendar_fields(t)[i],
        )
}

fn calendar_field(t: &LocalTimeFields, i: usize) -> (v: i64)
    requires
        i < 8,
    ensures
        v == calendar_fields(*t)[i as int],
{
    if i == 0 {
        t.year as i64
    } else if i == 1 {
        t.month as i64
    } else if i == 2 {
        t.day as i64
    } else if i == 3 {
        t.weekday_sunday0 as i64
    } else if i == 4 {
        t.hour as i64
    } else if i == 5 {
        t.minute as i64
    } else if i == 6 {
        t.second as i64
    } else {
        t.millisecond as i64
    }
}

proof fn lemma_elements(params: Seq<Value>, m: int, n: int)
    requires
        0 <= m <= n,
    ensures
        0 <= elements_before(params, m) <= elements_before(params, n),
    decreases n,
{
    if m < n {
        lemma_elements(params, m, n - 1);
    } else if m > 0 {
        lemma_elements(params, m - 1, n - 1);
    }
}

/// The assignments of a calendar command at the time `t`.
pub fn calendar_requests(t: &LocalTimeFields, params: &[Value]) -> (out: Vec<Request>)
    ensures
        assigns_fields(out@, *t, params@),
{
    let mut out: Vec<Request> = Vec::new();
    let mut i: usize = 0;
    while i < 8
        invariant
            i <= 8,
            out@.len() == elements_before(params@, i as int),
            forall|k: int|
                0 <= k < i && k < params@.len() && #[trigger] params@[k] is Element ==> {
                    &&& elements_before(params@, k) < out@.len()
                    &&& assigns(
                        out@[elements_before(params@, k)],
                        params@[k],
                        calendar_fields(*t)[k],
                    )
                },
        decreases 8 - i,
    {
        if i < params.len() {
            if let Value::Element(chain) = &params[i] {
                let v: i64 = calendar_field(t, i);
                let ghost before = out@;
                out.push(
                    Request::Assign {
                        chain: vstd::slice::slice_to_vec(chain.as_slice()),
                        value: v,
                    },
                );
                proof {
                    assert forall|k: int|
                        0 <= k < i && k < params@.len() && #[trigger] params@[k] is Element implies out@[elements_before(
                    params@, k)] == before[elements_before(params@, k)] by {
                        lemma_elements(params@, k, i as int);
                    }
                }
            }
        }
        proof {
            lemma_elements(params@, i as int, i + 1);
        }
        i = i + 1;
    }
    out
}

/// The text of a message box: a number, a text, or the place in the script.
pub open spec fn box_text(ctx: CommandContext, params: Seq<Value>) -> Seq<char> {
    if params.len() > 0 {
        match params[0] {
            Value::Int(v) => number_text::decimal(v as int),
            Value::Str(s) => s@,
            _ => value::text_or_empty(params, 0),
        }
    } else {
        match ctx.current_scene_name {
            Some(name) => name@ + seq![':'] + number_text::decimal(ctx.current_line_no as int),
            None => Seq::empty(),
        }
    }
}

fn messagebox_text(ctx: &CommandContext, params: &[Value]) -> (s: String)
    ensures
        s@ == box_text(*ctx, params@),
{
    if params.len() > 0 {
        match &params[0] {
            Value::Int(v) => decimal_i64(*v),
            Value::Str(s) => s.clone(),
            _ => arg_string(params, 0),
        }
    } else {
        match &ctx.current_scene_name {
            Some(name) => {
                let mut s = name.clone();
                s.push(':');
                s.append(decimal_i64(ctx.current_line_no).as_str());
                proof {
                    assert(s@ =~= name@ + seq![':'] + number_text::decimal(
                        ctx.current_line_no as int,
                    ));
                }
                s
            },
            None => String::new(),
        }
    }
}

/// The labels of a message box, in the order of their values.
pub open spec fn box_labels(kind: i32) -> Seq<Seq<char>> {
    if kind == MESSAGEBOX_OKCANCEL || kind == DEBUG_MESSAGEBOX_OKCANCEL {
        seq!["OK"@, "CANCEL"@]
    } else if kind == MESSAGEBOX_YESNO || kind == DEBUG_MESSAGEBOX_YESNO {
        seq!["YES"@, "NO"@]
    } else if kind == MESSAGEBOX_YESNOCANCEL || kind == DEBUG_MESSAGEBOX_YESNOCANCEL {
        seq!["YES"@, "NO"@, "CANCEL"@]
    } else {
        seq!["OK"@]
    }
}

/// Whether the buttons have the labels, numbered from 0.
pub open spec fn are_buttons(buttons: Seq<MessageBoxButton>, labels: Seq<Seq<char>>) -> bool {
    &&& buttons.len() == labels.len()
    &&& forall|i: int|
        0 <= i < buttons.len() ==> (#[trigger] buttons[i]).label@ == labels[i] && buttons[i].value
            == i
}

/// The buttons of a message box.
pub fn messagebox_buttons(kind: i32) -> (buttons: Vec<MessageBoxButton>)
    ensures
        are_buttons(buttons@, box_labels(kind)),
{
    let mut buttons: Vec<MessageBoxButton> = Vec::new();
    if kind == MESSAGEBOX_YESNO || kind == DEBUG_MESSAGEBOX_YESNO || kind == MESSAGEBOX_YESNOCANCEL
        || kind == DEBUG_MESSAGEBOX_YESNOCANCEL {
        buttons.push(MessageBoxButton { label: "YES".to_owned(), value: 0 });
        buttons.push(MessageBoxButton { label: "NO".to_owned(), value: 1 });
        if kind == MESSAGEBOX_YESNOCANCEL || kind == DEBUG_MESSAGEBOX_YESNOCANCEL {
            buttons.push(MessageBoxButton { label: "CANCEL".to_owned(), value: 2 });
        }
    } else {
        buttons.push(MessageBoxButton { label: "OK".to_owned(), value: 0 });
        if kind == MESSAGEBOX_OKCANCEL || kind == DEBUG_MESSAGEBOX_OKCANCEL {
            buttons.push(MessageBoxButton { label: "CANCEL".to_owned(), value: 1 });
        }
    }
    buttons
}

/// Whether nothing but the system state, the stack and the requests differs.
pub open spec fn only_system_changes(before: CommandContext, after: CommandContext) -> bool {
    after == (CommandContext {
        stack: after.stack,
        requests: after.requests,
        globals: (Globals { system: after.globals.system, ..before.globals }),
        ..before
    })
}

/// A number brought into the range of a box's answers.
pub open spec fn as_answer(v: int, kind: i32) -> int {
    if v < 0 {
        0
    } else if v > box_labels(kind).len() - 1 {
        box_labels(kind).len() - 1
    } else {
        v
    }
}

/// Whether a message box has been shown: it is noted, and it is answered from
/// the answers that stand ready, or else the host is asked to show it.
pub open spec fn box_shown(
    before: CommandContext,
    after: CommandContext,
    kind: i32,
    debug_only: bool,
    text: Seq<char>,
) -> bool {
    let was = before.globals.system;
    let is = after.globals.system;
    &&& only_system_changes(before, after)
    &&& is == (SystemState {
        messagebox_history: is.messagebox_history,
        messagebox_response_queue: is.messagebox_response_queue,
        ..was
    })
    &&& is.messagebox_history@.len() == was.messagebox_history@.len() + 1
    &&& is.messagebox_history@.drop_last() == was.messagebox_history@
    &&& is.messagebox_history@.last().kind == kind
    &&& is.messagebox_history@.last().text@ == text
    &&& is.messagebox_history@.last().debug_only == debug_only
    &&& if was.messagebox_response_queue@.len() > 0 {
        &&& is.messagebox_response_queue@ == was.messagebox_response_queue@.drop_first()
        &&& value::pushed_int(
            before.stack@,
            after.stack@,
            as_answer(was.messagebox_response_queue@[0] as int, kind),
        )
        &&& after.requests == before.requests
    } else {
        &&& is.messagebox_response_queue == was.messagebox_response_queue
        &&& after.stack == before.stack
        &&& after.requests@.len() == before.requests@.len() + 1
        &&& after.requests@.drop_last() == before.requests@
        &&& after.requests@.last() matches Request::MessageBox {
            kind: k,
            debug_only: d,
            text: t,
            buttons,
        } && k == kind && d == debug_only && t@ == text && are_buttons(buttons@, box_labels(kind))
    }
}

fn handle_messagebox(ctx: &mut CommandContext, kind: i32, debug_only: bool, text: String)
    ensures
        box_shown(*old(ctx), *final(ctx), kind, debug_only, text@),
{
    ctx.globals.system.messagebox_history.push(
        MessageBoxRecord { kind, text: text.clone(), debug_only },
    );
    proof {
        assert(ctx.globals.system.messagebox_history@.drop_last() =~= old(
            ctx,
        ).globals.system.messagebox_history@);
    }
    let buttons = messagebox_buttons(kind);
    if ctx.globals.system.messagebox_response_queue.len() > 0 {
        let v: i64 = ctx.globals.system.messagebox_response_queue.remove(0);
        proof {
            assert(ctx.globals.system.messagebox_response_queue@ =~= old(
                ctx,
            ).globals.system.messagebox_response_queue@.drop_first());
        }
        let top: i64 = buttons.len() as i64 - 1;
        let answer: i64 = if v < 0 {
            0
        } else if v > top {
            top
        } else {
            v
        };
        push_int(&mut ctx.stack, answer);
        return;
    }
    ctx.requests.push(Request::MessageBox { kind, debug_only, text, buttons });
    proof {
        assert(ctx.requests@.drop_last() =~= old(ctx).requests@);
    }
}

/// A line of the debug log.
pub open spec fn log_line(
    stamp: Seq<char>,
    scene: Option<Seq<char>>,
    line_no: int,
    msg: Seq<char>,
) -> Seq<char> {
    match scene {
        Some(name) => stamp + "\t("@ + name + ".ss line="@ + number_text::decimal(line_no) + ")\t"@
            + msg,
        None => stamp + "\t"@ + msg,
    }
}

/// A line of the debug log.
pub fn debug_log_line(stamp: &str, scene: Option<&str>, line_no: i64, msg: &str) -> (s: String)
    ensures
        s@ == log_line(
            stamp@,
            match scene {
                Some(name) => Some(name@),
                None => None,
            },
            line_no as int,
            msg@,
        ),
{
    let mut s = stamp.to_owned();
    match scene {
        Some(name) => {
            s.append("\t(");
            s.append(name);
            s.append(".ss line=");
            s.append(decimal_i64(line_no).as_str());
            s.append(")\t");
            s.append(msg);
        },
        None => {
            s.append("\t");
            s.append(msg);
        },
    }
    s
}

/// The text that a debug output writes.
pub open spec fn output_text(params: Seq<Value>) -> Seq<char> {
    if params.len() > 0 {
        match params[0] {
            Value::Int(v) => number_text::decimal(v as int),
            Value::Str(s) => s@,
            _ => Seq::empty(),
        }
    } else {
        Seq::empty()
    }
}

fn log_text(params: &[Value]) -> (s: String)
    ensures
        s@ == output_text(params@),
{
    if params.len() > 0 {
        match &params[0] {
            Value::Int(v) => decimal_i64(*v),
            Value::Str(s) => s.clone(),
            _ => String::new(),
        }
    } else {
        String::new()
    }
}

pub open spec fn scene_name(ctx: CommandContext) -> Option<Seq<char>> {
    match ctx.current_scene_name {
        Some(name) => Some(name@),
        None => None,
    }
}

/// Whether `list` is `before` with the text `s` behind it.
pub open spec fn text_added(before: Seq<String>, list: Seq<String>, s: Seq<char>) -> bool {
    &&& list.len() == before.len() + 1
    &&& list.drop_last() == before
    &&& list.last()@ == s
}

fn add_text(list: &mut Vec<String>, s: String)
    ensures
        text_added(old(list)@, final(list)@, s@),
{
    list.push(s);
    proof {
        assert(list@.drop_last() =~= old(list)@);
    }
}

/// Whether a debug output has been made at the time `now`: kept, and written
/// to the log behind its time unless it is empty or the clock has no date.
pub open spec fn output_made(
    before: CommandContext,
    after: CommandContext,
    s: Seq<char>,
    now: Option<LocalTimeFields>,
) -> bool {
    let was = before.globals.system;
    let is = after.globals.system;
    &&& only_system_changes(before, after)
    &&& after.stack == before.stack
    &&& is == (SystemState { debug_logs: is.debug_logs, ..was })
    &&& text_added(was.debug_logs@, is.debug_logs@, s)
    &&& if s.len() == 0 || now is None {
        after.requests == before.requests
    } else {
        &&& after.requests@.len() == before.requests@.len() + 1
        &&& after.requests@.drop_last() == before.requests@
        &&& after.requests@.last() matches Request::AppendDebugLog(line) && line@ == log_line(
            platform_time::stamp_of(now->0),
            scene_name(before),
            before.current_line_no as int,
            s,
        )
    }
}

/// A debug output at the time `now`.
pub fn write_debug_log(ctx: &mut CommandContext, s: String, now: Option<LocalTimeFields>)
    ensures
        output_made(*old(ctx), *final(ctx), s@, now),
{
    if s.as_str().unicode_len() > 0 {
        if let Some(t) = now {
            let stamp = log_timestamp(&t);
            let line = match &ctx.current_scene_name {
                Some(name) => debug_log_line(
                    stamp.as_str(),
                    Some(name.as_str()),
                    ctx.current_line_no,
                    s.as_str(),
                ),
                None => debug_log_line(stamp.as_str(), None, ctx.current_line_no, s.as_str()),
            };
            ctx.requests.push(Request::AppendDebugLog(line));
            proof {
                assert(ctx.requests@.drop_last() =~= old(ctx).requests@);
            }
        }
    }
    add_text(&mut ctx.globals.system.debug_logs, s);
}

/// What stands for a checked dummy file.
pub open spec fn signature(params: Seq<Value>) -> Seq<char> {
    value::text_or_empty(params, 0) + seq![':'] + number_text::decimal(value::int_or(params, 1, 0))
        + seq![':'] + value::text_or_empty(params, 2)
}

pub open spec fn has_text(list: Seq<String>, s: Seq<char>) -> bool {
    exists|i: int| 0 <= i < list.len() && (#[trigger] list[i])@ == s
}

fn note_dummy(list: &mut Vec<String>, s: String)
    ensures
        has_text(old(list)@, s@) ==> final(list)@ == old(list)@,
        !has_text(old(list)@, s@) ==> text_added(old(list)@, final(list)@, s@),
{
    let mut i: usize = 0;
    while i < list.len()
        invariant
            list@ == old(list)@,
            i <= list@.len(),
            forall|k: int| 0 <= k < i ==> (#[trigger] list@[k])@ != s@,
        decreases list@.len() - i,
    {
        if same_text(list[i].as_str(), s.as_str()) {
            return;
        }
        i = i + 1;
    }
    add_text(list, s);
}

/// What the host does for a system command. After the last three it calls the
/// function that ends the command.
#[derive(Debug)]
pub enum SystemStep {
    /// The command is none of the system's.
    NotHandled,
    /// Nothing is left to do but what has been requested.
    Done,
    /// Open the file at the path, then call `opened_file`.
    OpenFile(String),
    /// See whether the file exists, then call `checked_file`.
    CheckFile(String),
    /// Find out the names of the system and its processor, then call
    /// `give_spec_info`.
    SpecInfo,
}

/// The operation of a command and its arguments.
pub open spec fn call_op(ctx: CommandContext, form_id: u32) -> Option<i32> {
    match prop_access::call_path(ctx.vm_call, form_id) {
        Some(path) => if path.len() >= 2 {
            Some(path[1])
        } else {
            None
        },
        None => None,
    }
}

pub open spec fn is_box(op: i32) -> bool {
    MESSAGEBOX_OK <= op <= MESSAGEBOX_YESNOCANCEL
}

pub open spec fn is_debug_box(op: i32) -> bool {
    DEBUG_MESSAGEBOX_OK <= op <= DEBUG_MESSAGEBOX_YESNOCANCEL
}

pub open spec fn flag_number(b: bool) -> int {
    if b {
        1
    } else {
        0
    }
}

/// Whether a number has been put on the stack, and nothing else changed.
pub open spec fn only_number(before: CommandContext, after: CommandContext, v: int) -> bool {
    &&& after == (CommandContext { stack: after.stack, ..before })
    &&& value::pushed_int(before.stack@, after.stack@, v)
}

/// Whether the texts kept of dummy files are those before and one more.
pub open spec fn dummy_noted(before: CommandContext, after: CommandContext, s: Seq<char>) -> bool {
    let was = before.globals.system;
    let is = after.globals.system;
    &&& only_system_changes(before, after)
    &&& after.stack == before.stack
    &&& after.requests == before.requests
    &&& is == (SystemState { dummy_checks: is.dummy_checks, ..was })
    &&& if has_text(was.dummy_checks@, s) {
        is.dummy_checks@ == was.dummy_checks@
    } else {
        text_added(was.dummy_checks@, is.dummy_checks@, s)
    }
}

/// Whether a request was added, with a text kept in a list of the system.
pub open spec fn page_opened(before: CommandContext, after: CommandContext, url: Seq<char>) -> bool {
    let was = before.globals.system;
    let is = after.globals.system;
    &&& only_system_changes(before, after)
    &&& after.stack == before.stack
    &&& is == (SystemState { debug_logs: is.debug_logs, ..was })
    &&& text_added(was.debug_logs@, is.debug_logs@, "shell_open_web:"@ + url)
    &&& after.requests@.len() == before.requests@.len() + 1
    &&& after.requests@.drop_last() == before.requests@
    &&& after.requests@.last() matches Request::OpenUrl(u) && u@ == url
}

pub open spec fn bench_opened(before: CommandContext, after: CommandContext, s: Seq<char>) -> bool {
    let was = before.globals.system;
    let is = after.globals.system;
    &&& only_system_changes(before, after)
    &&& after.stack == before.stack
    &&& is == (SystemState { bench_dialogs: is.bench_dialogs, ..was })
    &&& text_added(was.bench_dialogs@, is.bench_dialogs@, s)
    &&& after.requests@.len() == before.requests@.len() + 1
    &&& after.requests@.drop_last() == before.requests@
    &&& after.requests@.last() matches Request::BenchDialog(t) && t@ == s
}

/// Whether the time `now` has been assigned; nothing is assigned where the
/// clock has no date.
pub open spec fn calendar_given(
    before: CommandContext,
    after: CommandContext,
    params: Seq<Value>,
    now: Option<LocalTimeFields>,
) -> bool {
    &&& after == (CommandContext { requests: after.requests, ..before })
    &&& match now {
        Some(t) => exists|added: Seq<Request>| #[trigger]
            assigns_fields(added, t, params) && after.requests@ == before.requests@ + added,
        None => after.requests@ == before.requests@,
    }
}

/// Whether a clock can show this time, or none, in the zone of a machine.
pub open spec fn can_be_now(now: Option<LocalTimeFields>, utc_offset: i32) -> bool {
    exists|since: Option<(u64, u32)>| #[trigger]
        platform_time::is_date_of(now, since, utc_offset as int)
}

/// What a command does, by its operation.
pub open spec fn took_step(
    before: CommandContext,
    after: CommandContext,
    op: i32,
    params: Seq<Value>,
    step: SystemStep,
) -> bool {
    let system = before.globals.system;
    if op == GET_CALENDAR {
        step is Done && exists|now: Option<LocalTimeFields>|
            can_be_now(now, before.utc_offset) && #[trigger] calendar_given(before, after, params, now)
    } else if op == GET_UNIX_TIME {
        step is Done && exists|secs: u64| only_number(before, after, #[trigger] (secs as i64) as int)
    } else if op == CHECK_ACTIVE {
        step is Done && only_number(before, after, flag_number(system.active_flag))
    } else if op == CHECK_DEBUG_FLAG {
        step is Done && only_number(before, after, flag_number(system.debug_flag))
    } else if op == SHELL_OPEN_FILE {
        &&& step matches SystemStep::OpenFile(p) && p@ == game_path(
            before.project_dir@,
            value::text_or_empty(params, 0),
        )
        &&& after == before
    } else if op == SHELL_OPEN_WEB {
        step is Done && page_opened(before, after, value::text_or_empty(params, 0))
    } else if op == CHECK_FILE_EXIST {
        &&& step matches SystemStep::CheckFile(p) && p@ == game_path(
            before.project_dir@,
            value::text_or_empty(params, 0),
        )
        &&& after == before
    } else if op == CHECK_FILE_EXIST_SAVE_DIR {
        &&& step matches SystemStep::CheckFile(p) && p@ == game_path(
            before.save_dir@,
            value::text_or_empty(params, 0),
        )
        &&& after == before
    } else if op == CHECK_DUMMY_FILE_ONCE {
        step is Done && dummy_noted(before, after, signature(params))
    } else if op == CLEAR_DUMMY_FILE {
        &&& step is Done
        &&& only_system_changes(before, after)
        &&& after.stack == before.stack
        &&& after.requests == before.requests
        &&& after.globals.system == (SystemState {
            dummy_checks: after.globals.system.dummy_checks,
            ..system
        })
        &&& after.globals.system.dummy_checks@.len() == 0
    } else if is_box(op) {
        step is Done && box_shown(before, after, op, false, box_text(before, params))
    } else if is_debug_box(op) {
        step is Done && if system.debug_flag {
            box_shown(before, after, op, true, box_text(before, params))
        } else {
            only_number(before, after, 0)
        }
    } else if op == DEBUG_WRITE_LOG {
        step is Done && if system.debug_flag {
            exists|now: Option<LocalTimeFields>|
                can_be_now(now, before.utc_offset) && #[trigger] output_made(
                    before,
                    after,
                    output_text(params),
                    now,
                )
        } else {
            after == before
        }
    } else if op == GET_SPEC_INFO_FOR_CHIHAYA_BENCH {
        step is SpecInfo && after == before
    } else if op == OPEN_DIALOG_FOR_CHIHAYA_BENCH {
        step is Done && bench_opened(before, after, value::text_or_empty(params, 0))
    } else if op == GET_LANGUAGE {
        &&& step is Done
        &&& after == (CommandContext { stack: after.stack, ..before })
        &&& value::pushed_text(before.stack@, after.stack@, system.language_code@)
    } else {
        step is NotHandled && after == before
    }
}

fn push_flag(ctx: &mut CommandContext, b: bool)
    ensures
        only_number(*old(ctx), *final(ctx), flag_number(b)),
{
    push_int(
        &mut ctx.stack,
        if b {
            1
        } else {
            0
        },
    );
}

/// Carries out a system command as far as it needs nothing of the host.
pub fn dispatch(ctx: &mut CommandContext, form_id: u32, args: &[Value]) -> (step: SystemStep)
    ensures
        match call_op(*old(ctx), form_id) {
            None => step is NotHandled && *final(ctx) == *old(ctx),
            Some(op) => took_step(*old(ctx), *final(ctx), op, args@, step),
        },
{
    let op: i32 = match parse_element_chain_ctx(ctx, form_id) {
        None => {
            return SystemStep::NotHandled;
        },
        Some(chain) => {
            if chain.len() < 2 {
                return SystemStep::NotHandled;
            }
            chain[1]
        },
    };
    if op == GET_CALENDAR {
        let now = local_time_fields(ctx.utc_offset);
        give_calendar(ctx, args, now);
        proof {
            assert(calendar_given(*old(ctx), *ctx, args@, now));
        }
    } else if op == GET_UNIX_TIME {
        let secs: u64 = unix_time_secs();
        push_int(&mut ctx.stack, secs as i64);
        proof {
            assert(only_number(*old(ctx), *ctx, (secs as i64) as int));
        }
    } else if op == CHECK_ACTIVE {
        let b: bool = ctx.globals.system.active_flag;
        push_flag(ctx, b);
    } else if op == CHECK_DEBUG_FLAG {
        let b: bool = ctx.globals.system.debug_flag;
        push_flag(ctx, b);
    } else if op == SHELL_OPEN_FILE {
        let raw = arg_string(args, 0);
        return SystemStep::OpenFile(join_game_path(ctx.project_dir.as_str(), raw.as_str()));
    } else if op == SHELL_OPEN_WEB {
        open_page(ctx, args);
    } else if op == CHECK_FILE_EXIST {
        let raw = arg_string(args, 0);
        return SystemStep::CheckFile(join_game_path(ctx.project_dir.as_str(), raw.as_str()));
    } else if op == CHECK_FILE_EXIST_SAVE_DIR {
        let raw = arg_string(args, 0);
        return SystemStep::CheckFile(join_game_path(ctx.save_dir.as_str(), raw.as_str()));
    } else if op == CHECK_DUMMY_FILE_ONCE {
        check_dummy(ctx, args);
    } else if op == CLEAR_DUMMY_FILE {
        ctx.globals.system.dummy_checks.clear();
    } else if MESSAGEBOX_OK <= op && op <= MESSAGEBOX_YESNOCANCEL {
        let text = messagebox_text(ctx, args);
        handle_messagebox(ctx, op, false, text);
    } else if DEBUG_MESSAGEBOX_OK <= op && op <= DEBUG_MESSAGEBOX_YESNOCANCEL {
        let text = messagebox_text(ctx, args);
        if ctx.globals.system.debug_flag {
            handle_messagebox(ctx, op, true, text);
        } else {
            push_int(&mut ctx.stack, 0);
        }
    } else if op == DEBUG_WRITE_LOG {
        if ctx.globals.system.debug_flag {
            let s = log_text(args);
            let now = local_time_fields(ctx.utc_offset);
            write_debug_log(ctx, s, now);
            proof {
                assert(output_made(*old(ctx), *ctx, output_text(args@), now));
            }
        }
    } else if op == GET_SPEC_INFO_FOR_CHIHAYA_BENCH {
        return SystemStep::SpecInfo;
    } else if op == OPEN_DIALOG_FOR_CHIHAYA_BENCH {
        open_bench(ctx, args);
    } else if op == GET_LANGUAGE {
        let s = ctx.globals.system.language_code.clone();
        push_text(&mut ctx.stack, s);
    } else {
        return SystemStep::NotHandled;
    }
    SystemStep::Done
}

/// The calendar command at the time `now`.
pub fn give_calendar(ctx: &mut CommandContext, args: &[Value], now: Option<LocalTimeFields>)
    ensures
        calendar_given(*old(ctx), *final(ctx), args@, now),
{
    if let Some(t) = now {
        let mut added = calendar_requests(&t, args);
        let ghost all = added@;
        ctx.requests.append(&mut added);
        proof {
            assert(assigns_fields(all, t, args@));
            assert(ctx.requests@ =~= old(ctx).requests@ + all);
        }
    }
}

fn open_page(ctx: &mut CommandContext, args: &[Value])
    ensures
        page_opened(*old(ctx), *final(ctx), value::text_or_empty(args@, 0)),
{
    let url = arg_string(args, 0);
    let line = join("shell_open_web:", url.as_str());
    add_text(&mut ctx.globals.system.debug_logs, line);
    ctx.requests.push(Request::OpenUrl(url));
    proof {
        assert(ctx.requests@.drop_last() =~= old(ctx).requests@);
    }
}

fn open_bench(ctx: &mut CommandContext, args: &[Value])
    ensures
        bench_opened(*old(ctx), *final(ctx), value::text_or_empty(args@, 0)),
{
    let text = arg_string(args, 0);
    add_text(&mut ctx.globals.system.bench_dialogs, text.clone());
    ctx.requests.push(Request::BenchDialog(text));
    proof {
        assert(ctx.requests@.drop_last() =~= old(ctx).requests@);
    }
}

fn check_dummy(ctx: &mut CommandContext, args: &[Value])
    ensures
        dummy_noted(*old(ctx), *final(ctx), signature(args@)),
{
    let mut s = arg_string(args, 0);
    s.push(':');
    s.append(decimal_i64(arg_i64_or(args, 1, 0)).as_str());
    s.push(':');
    s.append(arg_string(args, 2).as_str());
    proof {
        assert(s@ =~= signature(args@));
    }
    note_dummy(&mut ctx.globals.system.dummy_checks, s);
}

/// Ends the opening of a file. `resolved` is the file that the path names on
/// this machine, where there is one.
pub fn opened_file(ctx: &mut CommandContext, requested: &str, resolved: Option<&str>)
    ensures
        only_system_changes(*old(ctx), *final(ctx)),
        final(ctx).stack == old(ctx).stack,
        final(ctx).requests == old(ctx).requests,
        final(ctx).globals.system == (SystemState {
            debug_logs: final(ctx).globals.system.debug_logs,
            ..old(ctx).globals.system
        }),
        text_added(
            old(ctx).globals.system.debug_logs@,
            final(ctx).globals.system.debug_logs@,
            "shell_open_file:"@ + match resolved {
                Some(path) => path@,
                None => requested@,
            },
        ),
{
    let line = match resolved {
        Some(path) => join("shell_open_file:", path),
        None => join("shell_open_file:", requested),
    };
    add_text(&mut ctx.globals.system.debug_logs, line);
}

/// Ends the check of a file.
pub fn checked_file(ctx: &mut CommandContext, exists_now: bool)
    ensures
        only_number(*old(ctx), *final(ctx), flag_number(exists_now)),
{
    push_flag(ctx, exists_now);
}

/// What a benchmark shows of the machine.
pub open spec fn spec_info(os: Seq<char>, cpu: Seq<char>, adapter: Seq<char>) -> Seq<char> {
    let machine = "OS = "@ + os + "\nCPU = "@ + cpu;
    let card = text_parts::trimmed(adapter);
    if card.len() == 0 {
        machine
    } else {
        machine + "\nビデオカード = "@ + card
    }
}

/// Ends the question what machine this is.
pub fn give_spec_info(ctx: &mut CommandContext, os: &str, cpu: &str)
    ensures
        *final(ctx) == (CommandContext { stack: final(ctx).stack, ..*old(ctx) }),
        value::pushed_text(
            old(ctx).stack@,
            final(ctx).stack@,
            spec_info(os@, cpu@, old(ctx).globals.system.chihaya_display_adapter_name@),
        ),
{
    let mut s = "OS = ".to_owned();
    s.append(os);
    s.append("\nCPU = ");
    s.append(cpu);
    let card = trim(ctx.globals.system.chihaya_display_adapter_name.as_str());
    if card.as_str().unicode_len() > 0 {
        s.append("\nビデオカード = ");
        s.append(card.as_str());
    }
    push_text(&mut ctx.stack, s);
}

/// Whether a number is handed to the place that a parameter names.
pub open spec fn is_given(request: Request, param: Value, v: int) -> bool {
    match (request, param) {
        (Request::Assign { chain, value }, Value::Element(place)) => value == v && chain@ == place@,
        _ => false,
    }
}

/// The parts of the time go to the places that are named: the year to the first of them, then
/// the month, the day, the day of the week, the hour, the minute, the second and the thousandths.
pub proof fn parts_of_the_time_go_to_their_places(
    requests: Seq<Request>,
    t: LocalTimeFields,
    params: Seq<Value>,
)
    requires
        assigns_fields(requests, t, params),
        params.len() >= 8,
        forall|i: int| 0 <= i < 8 ==> (#[trigger] params[i]) is Element,
    ensures
        requests.len() == 8,
        is_given(requests[0], params[0], t.year as int),
        is_given(requests[1], params[1], t.month as int),
        is_given(requests[2], params[2], t.day as int),
        is_given(requests[3], params[3], t.weekday_sunday0 as int),
        is_given(requests[4], params[4], t.hour as int),
        is_given(requests[5], params[5], t.minute as int),
        is_given(requests[6], params[6], t.second as int),
        is_given(requests[7], params[7], t.millisecond as int),
{
    reveal_with_fuel(elements_before, 9);
    assert(params[0] is Element && elements_before(params, 0) == 0);
    assert(params[1] is Element && elements_before(params, 1) == 1);
    assert(params[2] is Element && elements_before(params, 2) == 2);
    assert(params[3] is Element && elements_before(params, 3) == 3);
    assert(params[4] is Element && elements_before(params, 4) == 4);
    assert(params[5] is Element && elements_before(params, 5) == 5);
    assert(params[6] is Element && elements_before(params, 6) == 6);
    assert(params[7] is Element && elements_before(params, 7) == 7);
    assert(assigns(requests[0], params[0], calendar_fields(t)[0]));
    assert(assigns(requests[1], params[1], calendar_fields(t)[1]));
    assert(assigns(requests[2], params[2], calendar_fields(t)[2]));
    assert(assigns(requests[3], params[3], calendar_fields(t)[3]));
    assert(assigns(requests[4], params[4], calendar_fields(t)[4]));
    assert(assigns(requests[5], params[5], calendar_fields(t)[5]));
    assert(assigns(requests[6], params[6], calendar_fields(t)[6]));
    assert(assigns(requests[7], params[7], calendar_fields(t)[7]));
}

/// A place that is not named gets nothing, and the others are served all the same.
pub proof fn parts_without_a_place_are_left_out(
    requests: Seq<Request>,
    t: LocalTimeFields,
    params: Seq<Value>,
)
    requires
        assigns_fields(requests, t, params),
        params.len() == 2,
        !(params[0] is Element),
        params[1] is Element,
    ensures
        requests.len() == 1,
        is_given(requests[0], params[1], t.month as int),
{
    reveal_with_fuel(elements_before, 9);
    assert(elements_before(params, 1) == 0);
    assert(assigns(requests[0], params[1], calendar_fields(t)[1]));
}

/// A box has the buttons that its command names, the one that agrees first.
pub proof fn boxes_have_the_buttons_of_their_command(kind: i32)
    ensures
        kind == MESSAGEBOX_OK || kind == DEBUG_MESSAGEBOX_OK ==> box_labels(kind) == seq!["OK"@],
        kind == MESSAGEBOX_OKCANCEL || kind == DEBUG_MESSAGEBOX_OKCANCEL ==> box_labels(kind)
            == seq!["OK"@, "CANCEL"@],
        kind == MESSAGEBOX_YESNO || kind == DEBUG_MESSAGEBOX_YESNO ==> box_labels(kind)
            == seq!["YES"@, "NO"@],
        kind == MESSAGEBOX_YESNOCANCEL || kind == DEBUG_MESSAGEBOX_YESNOCANCEL ==> box_labels(kind)
            == seq!["YES"@, "NO"@, "CANCEL"@],
{
}

/// An answer is the place of a button: one that names a button is given back, and another one
/// becomes the nearest button.
pub proof fn answers_name_a_button(v: int, kind: i32, button: int)
    requires
        0 <= button < box_labels(kind).len(),
    ensures
        0 <= as_answer(v, kind) < box_labels(kind).len(),
        0 <= v < box_labels(kind).len() ==> as_answer(v, kind) == v,
        v < 0 ==> as_answer(v, kind) <= button,
        v >= box_labels(kind).len() ==> as_answer(v, kind) >= button,
{
}

/// Without debugging a box for debugging answers with its first button and asks nobody, and
/// nothing is written to the log.
pub proof fn debugging_commands_are_silent_without_debugging(
    before: CommandContext,
    after: CommandContext,
    op: i32,
    params: Seq<Value>,
    step: SystemStep,
)
    requires
        took_step(before, after, op, params, step),
        !before.globals.system.debug_flag,
    ensures
        op == DEBUG_WRITE_LOG ==> after == before,
        op == DEBUG_MESSAGEBOX_OK || op == DEBUG_MESSAGEBOX_OKCANCEL || op
            == DEBUG_MESSAGEBOX_YESNO || op == DEBUG_MESSAGEBOX_YESNOCANCEL ==> {
            &&& after.requests == before.requests
            &&& after.globals == before.globals
            &&& after.stack@.len() == before.stack@.len() + 1
            &&& after.stack@.last() == Value::Int(0)
        },
{
}

/// A script asks by a number: one where the thing asked for holds, and zero where it does not.
pub proof fn states_are_told_by_one_and_zero(
    before: CommandContext,
    after: CommandContext,
    op: i32,
    params: Seq<Value>,
    step: SystemStep,
)
    requires
        took_step(before, after, op, params, step),
        op == CHECK_ACTIVE || op == CHECK_DEBUG_FLAG,
    ensures
        after.stack@.len() == before.stack@.len() + 1,
        op == CHECK_ACTIVE ==> (after.stack@.last() == Value::Int(1)
            <==> before.globals.system.active_flag),
        op == CHECK_ACTIVE ==> (after.stack@.last() == Value::Int(0)
            <==> !before.globals.system.active_flag),
        op == CHECK_DEBUG_FLAG ==> (after.stack@.last() == Value::Int(1)
            <==> before.globals.system.debug_flag),
        op == CHECK_DEBUG_FLAG ==> (after.stack@.last() == Value::Int(0)
            <==> !before.globals.system.debug_flag),
{
}

/// A file that is named from within a directory lies in that directory: its path begins with
/// the directory and ends with the name, in which both kinds of slashes part directories.
pub proof fn named_files_lie_in_their_directory(base: Seq<char>, raw: Seq<char>, i: int)
    requires
        base.len() > 0,
        raw.len() > 0,
        raw[0] != '/',
        raw[0] != '\\',
        0 <= i < raw.len(),
    ensures
        base.is_prefix_of(game_path(base, raw)),
        base.last() == '/' ==> game_path(base, raw).len() == base.len() + raw.len(),
        base.last() != '/' ==> game_path(base, raw).len() == base.len() + 1 + raw.len() && game_path(
            base,
            raw,
        )[base.len() as int] == '/',
        game_path(base, raw)[game_path(base, raw).len() - raw.len() + i] == if raw[i] == '\\' {
            '/'
        } else {
            raw[i]
        },
        game_path(base, Seq::empty()) == base,
{
    assert(game_path(base, raw).take(base.len() as int) =~= base);
}

/// Files of the project are looked for in the project, and those of the saves among the saves.
pub proof fn files_are_looked_for_where_they_belong(
    before: CommandContext,
    after: CommandContext,
    op: i32,
    params: Seq<Value>,
    step: SystemStep,
    name: String,
)
    requires
        took_step(before, after, op, params, step),
        params.len() == 1,
        params[0] == Value::Str(name),
    ensures
        op == CHECK_FILE_EXIST ==> (step matches SystemStep::CheckFile(p) && p@ == game_path(
            before.project_dir@,
            name@,
        )),
        op == CHECK_FILE_EXIST_SAVE_DIR ==> (step matches SystemStep::CheckFile(p) && p@
            == game_path(before.save_dir@, name@)),
        op == SHELL_OPEN_FILE ==> (step matches SystemStep::OpenFile(p) && p@ == game_path(
            before.project_dir@,
            name@,
        )),
        op == SHELL_OPEN_WEB ==> (after.requests@.last() matches Request::OpenUrl(u) && u@ == name@),
        op == OPEN_DIALOG_FOR_CHIHAYA_BENCH ==> (after.requests@.last() matches Request::BenchDialog(
            u,
        ) && u@ == name@),
        op == CHECK_FILE_EXIST || op == CHECK_FILE_EXIST_SAVE_DIR || op == SHELL_OPEN_FILE ==> after
            == before,
{
}

} // verus!
