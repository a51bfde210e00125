//! Sound events: each owns a list of sounds and plays them one after the
//! other, in a circle or at random, on the global player or on a channel.

use vstd::prelude::*;
use crate::runtime::context::{
    CommandContext, FormError, Globals, Ids, PcmEventLine, PcmEventState, PcmEventType, Request,
};
use crate::runtime::forms::prop_access;
use crate::runtime::forms::prop_access::parse_element_chain_ctx;
use crate::runtime::value;
use crate::runtime::value::{arg_i64_or, push_int, Value};
use crate::runtime::wait::{VmWait, WaitTarget};

verus! {

broadcast use vstd::std_specs::hash::group_hash_axioms;

/// What a line holds.
#[verifier::ext_equal]
pub struct LineView {
    pub file_name: Seq<char>,
    pub probability: i32,
    pub min_time: i32,
    pub max_time: i32,
}

impl PcmEventLine {
    pub open spec fn view(&self) -> LineView {
        LineView {
            file_name: self.file_name@,
            probability: self.probability,
            min_time: self.min_time,
            max_time: self.max_time,
        }
    }
}

pub open spec fn line_views(lines: Seq<PcmEventLine>) -> Seq<LineView> {
    lines.map_values(|l: PcmEventLine| l@)
}

impl PcmEventState {
    /// An event that plays nothing.
    pub open spec fn is_idle_default(&self) -> bool {
        &&& self.event_type == PcmEventType::Idle
        &&& self.pcm_buf_no == -1
        &&& self.volume_type == 2
        &&& self.chara_no == -1
        &&& !self.bgm_fade_target_flag
        &&& !self.bgm_fade2_target_flag
        &&& !self.bgm_fade_source_flag
        &&& !self.real_flag
        &&& !self.time_type
        &&& self.cur_time == 0
        &&& self.next_time == 0
        &&& self.cur_line_no == -1
        &&& self.last_line_no == -1
        &&& self.lines@.len() == 0
    }

    /// The line numbers fit the engine's 32 bits.
    pub open spec fn wf(&self) -> bool {
        &&& self.lines@.len() <= i32::MAX
        &&& -1 <= self.cur_line_no < i32::MAX
    }

    pub open spec fn active(&self) -> bool {
        self.event_type != PcmEventType::Idle
    }

    pub fn new() -> (st: PcmEventState)
        ensures
            st.is_idle_default(),
            st.wf(),
    {
        PcmEventState {
            event_type: PcmEventType::Idle,
            pcm_buf_no: -1,
            volume_type: 2,
            chara_no: -1,
            bgm_fade_target_flag: false,
            bgm_fade2_target_flag: false,
            bgm_fade_source_flag: false,
            real_flag: false,
            time_type: false,
            cur_time: 0,
            next_time: 0,
            cur_line_no: -1,
            last_line_no: -1,
            lines: Vec::new(),
        }
    }

    pub fn is_active(&self) -> (r: bool)
        ensures
            r == self.active(),
    {
        match self.event_type {
            PcmEventType::Idle => false,
            _ => true,
        }
    }

    /// Ends the event.
    pub fn reinit(&mut self)
        ensures
            final(self).is_idle_default(),
            final(self).wf(),
    {
        *self = PcmEventState::new();
    }
}

/// What a start command gives to an event.
pub struct StartView {
    pub event_type: PcmEventType,
    pub pcm_buf_no: i32,
    pub volume_type: i32,
    pub chara_no: i32,
    pub bgm_fade_target: bool,
    pub bgm_fade2_target: bool,
    pub bgm_fade_source: bool,
    pub time_type: bool,
    pub lines: Seq<LineView>,
}

/// Whether an event has just been started.
pub open spec fn started(st: PcmEventState, s: StartView) -> bool {
    &&& st.event_type == s.event_type
    &&& st.pcm_buf_no == s.pcm_buf_no
    &&& st.volume_type == s.volume_type
    &&& st.chara_no == s.chara_no
    &&& st.bgm_fade_target_flag == s.bgm_fade_target
    &&& st.bgm_fade2_target_flag == s.bgm_fade2_target
    &&& st.bgm_fade_source_flag == s.bgm_fade_source
    &&& st.real_flag
    &&& st.time_type == s.time_type
    &&& st.cur_time == 0
    &&& st.next_time == 0
    &&& st.cur_line_no == -1
    &&& st.last_line_no == -1
    &&& line_views(st.lines@) == s.lines
}

/// What a sound event command does.
#[derive(Debug, Clone, Copy, PartialEq, Eq, Structural)]
pub enum PcmEventOp {
    Start(PcmEventType),
    Stop,
    Check,
    Wait,
    WaitKey,
    Unknown,
}

/// What the command with the number `op` does.
pub open spec fn op_of(ids: Ids, op: i32) -> PcmEventOp {
    let ops = ids.pcm_event;
    if op == ops.start_oneshot {
        PcmEventOp::Start(PcmEventType::OneShot)
    } else if op == ops.start_loop {
        PcmEventOp::Start(PcmEventType::Loop)
    } else if op == ops.start_random {
        PcmEventOp::Start(PcmEventType::Random)
    } else if op == ops.stop {
        PcmEventOp::Stop
    } else if op == ops.check {
        PcmEventOp::Check
    } else if op == ops.wait_key {
        PcmEventOp::WaitKey
    } else if op == ops.wait {
        PcmEventOp::Wait
    } else {
        PcmEventOp::Unknown
    }
}

fn resolve_pcm_event_op(ids: &Ids, op: i32) -> (r: PcmEventOp)
    ensures
        r == op_of(*ids, op),
{
    let ops = ids.pcm_event;
    if op == ops.start_oneshot {
        PcmEventOp::Start(PcmEventType::OneShot)
    } else if op == ops.start_loop {
        PcmEventOp::Start(PcmEventType::Loop)
    } else if op == ops.start_random {
        PcmEventOp::Start(PcmEventType::Random)
    } else if op == ops.stop {
        PcmEventOp::Stop
    } else if op == ops.check {
        PcmEventOp::Check
    } else if op == ops.wait_key {
        PcmEventOp::WaitKey
    } else if op == ops.wait {
        PcmEventOp::Wait
    } else {
        PcmEventOp::Unknown
    }
}

/// The number of the first argument that was given under the name `id` and
/// has a number.
pub open spec fn named(args: Seq<Value>, id: i32) -> Option<i64>
    decreases args.len(),
{
    if args.len() == 0 {
        None
    } else {
        let here = match args[0] {
            Value::NamedArg { id: nid, value } => if nid == id {
                (*value).number()
            } else {
                None
            },
            _ => None,
        };
        if here is Some {
            here
        } else {
            named(args.drop_first(), id)
        }
    }
}

fn named_int(args: &[Value], id: i32) -> (r: Option<i64>)
    ensures
        r == named(args@, id),
{
    let mut i: usize = 0;
    proof {
        assert(args@.skip(0) =~= args@);
    }
    while i < args.len()
        invariant
            i <= args@.len(),
            named(args@, id) == named(args@.skip(i as int), id),
        decreases args@.len() - i,
    {
        let here: Option<i64> = match &args[i] {
            Value::NamedArg { id: nid, value } => if *nid == id {
                value.as_i64()
            } else {
                None
            },
            _ => None,
        };
        if here.is_some() {
            return here;
        }
        proof {
            assert(args@.skip(i as int).drop_first() =~= args@.skip(i + 1));
        }
        i = i + 1;
    }
    None
}

pub open spec fn named_or(args: Seq<Value>, id: i32, default: int) -> int {
    match named(args, id) {
        Some(v) => v as int,
        None => default,
    }
}

fn named_int_or(args: &[Value], id: i32, default: i64) -> (r: i64)
    ensures
        r == named_or(args@, id, default as int),
{
    match named_int(args, id) {
        Some(v) => v,
        None => default,
    }
}

/// The channel that the first argument names, or -1 for the global player.
pub open spec fn buffer_of(args: Seq<Value>) -> i32 {
    if args.len() > 0 {
        match args[0] {
            Value::Int(v) => v as i32,
            _ => -1i32,
        }
    } else {
        -1i32
    }
}

fn positional_pcm_buf_no(args: &[Value]) -> (r: i32)
    ensures
        r == buffer_of(args@),
{
    if args.len() > 0 {
        match &args[0] {
            Value::Int(v) => *v as i32,
            _ => -1,
        }
    } else {
        -1
    }
}

/// The line that one argument gives: a name, or a list of a name, with a
/// probability behind it for random events, and a shortest and a longest
/// time.
pub open spec fn line_of(v: Value, random: bool) -> Option<LineView> {
    let base = if random {
        1i32
    } else {
        0i32
    };
    match v {
        Value::Str(s) => Some(
            LineView { file_name: s@, probability: base, min_time: 0, max_time: 0 },
        ),
        Value::List(items) => {
            let name = value::text_or_empty(items@, 0);
            let at = if random {
                2int
            } else {
                1int
            };
            let first = match value::int_at(items@, at) {
                Some(t) => t as i32,
                None => 0i32,
            };
            if name.len() == 0 {
                None
            } else {
                Some(
                    LineView {
                        file_name: name,
                        probability: if random {
                            match value::int_at(items@, 1) {
                                Some(p) => p as i32,
                                None => base,
                            }
                        } else {
                            base
                        },
                        min_time: first,
                        max_time: match value::int_at(items@, at + 1) {
                            Some(t) => t as i32,
                            None => first,
                        },
                    },
                )
            }
        },
        _ => None,
    }
}

/// The lines that the arguments give.
pub open spec fn lines_of(args: Seq<Value>, random: bool) -> Seq<LineView>
    decreases args.len(),
{
    if args.len() == 0 {
        Seq::empty()
    } else {
        let before = lines_of(args.drop_last(), random);
        match line_of(args.last(), random) {
            Some(line) => before.push(line),
            None => before,
        }
    }
}

fn line_from(v: &Value, random: bool) -> (r: Option<PcmEventLine>)
    ensures
        match r {
            Some(line) => line_of(*v, random) == Some(line@),
            None => line_of(*v, random) is None,
        },
{
    let base: i32 = if random {
        1
    } else {
        0
    };
    match v {
        Value::Str(s) => Some(
            PcmEventLine { file_name: s.clone(), probability: base, min_time: 0, max_time: 0 },
        ),
        Value::List(items) => {
            let file_name = value::arg_string(items.as_slice(), 0);
            let empty: bool = file_name.as_str().unicode_len() == 0;
            if empty {
                return None;
            }
            let mut probability: i32 = base;
            let mut at: usize = 1;
            if random {
                if let Some(p) = value::arg_i64(items.as_slice(), 1) {
                    probability = p as i32;
                }
                at = 2;
            }
            let mut min_time: i32 = 0;
            let mut max_time: i32 = 0;
            if let Some(t) = value::arg_i64(items.as_slice(), at) {
                min_time = t as i32;
                max_time = t as i32;
            }
            if let Some(t) = value::arg_i64(items.as_slice(), at + 1) {
                max_time = t as i32;
            }
            Some(PcmEventLine { file_name, probability, min_time, max_time })
        },
        _ => None,
    }
}

fn collect_lines(args: &[Value], random: bool) -> (out: Vec<PcmEventLine>)
    ensures
        line_views(out@) == lines_of(args@, random),
        out@.len() <= args@.len(),
{
    let mut out: Vec<PcmEventLine> = Vec::new();
    let mut i: usize = 0;
    proof {
        assert(line_views(out@) =~= lines_of(args@.take(0), random));
    }
    while i < args.len()
        invariant
            i <= args@.len(),
            line_views(out@) == lines_of(args@.take(i as int), random),
            out@.len() <= i,
        decreases args@.len() - i,
    {
        proof {
            let taken = args@.take(i + 1);
            assert(taken.drop_last() =~= args@.take(i as int));
            assert(taken.last() == args@[i as int]);
        }
        if let Some(line) = line_from(&args[i], random) {
            let ghost before = out@;
            out.push(line);
            proof {
                assert(line_views(out@) =~= line_views(before).push(line@));
            }
        }
        i = i + 1;
    }
    proof {
        assert(args@.take(i as int) =~= args@);
    }
    out
}

/// What a start command gives.
pub open spec fn start_of(args: Seq<Value>, event_type: PcmEventType) -> StartView {
    let volume = named(args, 3);
    StartView {
        event_type,
        pcm_buf_no: buffer_of(args),
        volume_type: match volume {
            Some(v) => if -1 <= v < 32 {
                v as i32
            } else {
                2
            },
            None => 2,
        },
        chara_no: named_or(args, 6, -1) as i32,
        bgm_fade_target: named_or(args, 4, 0) != 0,
        bgm_fade2_target: named_or(args, 5, 0) != 0,
        bgm_fade_source: named_or(args, 12, 0) != 0,
        time_type: named_or(args, 11, 0) != 0,
        lines: lines_of(args, event_type == PcmEventType::Random),
    }
}

fn start_event(args: &[Value], event_type: PcmEventType) -> (st: PcmEventState)
    requires
        args@.len() <= i32::MAX,
    ensures
        started(st, start_of(args@, event_type)),
        st.wf(),
{
    let random: bool = match event_type {
        PcmEventType::Random => true,
        _ => false,
    };
    let lines = collect_lines(args, random);
    let volume_type: i32 = match named_int(args, 3) {
        Some(v) => if -1 <= v && v < 32 {
            v as i32
        } else {
            2
        },
        None => 2,
    };
    PcmEventState {
        event_type,
        pcm_buf_no: positional_pcm_buf_no(args),
        volume_type,
        chara_no: named_int_or(args, 6, -1) as i32,
        bgm_fade_target_flag: named_int_or(args, 4, 0) != 0,
        bgm_fade2_target_flag: named_int_or(args, 5, 0) != 0,
        bgm_fade_source_flag: named_int_or(args, 12, 0) != 0,
        real_flag: true,
        time_type: named_int_or(args, 11, 0) != 0,
        cur_time: 0,
        next_time: 0,
        cur_line_no: -1,
        last_line_no: -1,
        lines,
    }
}

/// The events of a form.
pub open spec fn events_of(globals: Globals, form_id: u32) -> Seq<PcmEventState> {
    if globals.pcm_event_lists@.contains_key(form_id) {
        globals.pcm_event_lists@[form_id]@
    } else {
        Seq::empty()
    }
}

/// Whether a command is one on a sound event, by its path.
pub open spec fn addresses_event(ctx: CommandContext) -> bool {
    match prop_access::call_path(ctx.vm_call, ctx.ids.form_global_pcm_event) {
        Some(path) => path.len() >= 3 && path[1] == ctx.ids.elm_array,
        None => false,
    }
}

pub open spec fn event_path(ctx: CommandContext) -> Seq<i32> {
    match prop_access::call_path(ctx.vm_call, ctx.ids.form_global_pcm_event) {
        Some(path) => path,
        None => Seq::empty(),
    }
}

/// The number of the event that a command addresses.
pub open spec fn event_index(ctx: CommandContext) -> int {
    if event_path(ctx)[2] < 0 {
        0
    } else {
        event_path(ctx)[2] as int
    }
}

/// Whether the events are those before, with idle ones behind them up to
/// `index`, but for the one at `index`.
pub open spec fn events_but_one(
    before: Seq<PcmEventState>,
    after: Seq<PcmEventState>,
    index: int,
) -> bool {
    &&& after.len() == if before.len() > index {
        before.len() as int
    } else {
        index + 1
    }
    &&& forall|k: int|
        0 <= k < before.len() && k != index ==> #[trigger] after[k] == before[k]
    &&& forall|k: int|
        before.len() <= k < after.len() && k != index ==> (#[trigger] after[k]).is_idle_default()
}

/// Whether `st` is the event at `index`: the one before, or an idle one where
/// there was none.
pub open spec fn was_event(before: Seq<PcmEventState>, index: int, st: PcmEventState) -> bool {
    if index < before.len() {
        st == before[index]
    } else {
        st.is_idle_default()
    }
}

/// Whether nothing differs but the events, the stack, the wait and the
/// requests.
pub open spec fn only_events_change(before: CommandContext, after: CommandContext) -> bool {
    after == (CommandContext {
        stack: after.stack,
        wait: after.wait,
        requests: after.requests,
        globals: (Globals { pcm_event_lists: after.globals.pcm_event_lists, ..before.globals }),
        ..before
    })
}

/// The event before a command.
pub open spec fn active_before(ctx: CommandContext) -> bool {
    let events = events_of(ctx.globals, ctx.ids.form_global_pcm_event);
    event_index(ctx) < events.len() && events[event_index(ctx)].active()
}

pub open spec fn buffer_before(ctx: CommandContext) -> int {
    let events = events_of(ctx.globals, ctx.ids.form_global_pcm_event);
    if event_index(ctx) < events.len() {
        events[event_index(ctx)].pcm_buf_no as int
    } else {
        -1
    }
}

pub open spec fn oneshot_before(ctx: CommandContext) -> bool {
    let events = events_of(ctx.globals, ctx.ids.form_global_pcm_event);
    event_index(ctx) < events.len() && events[event_index(ctx)].event_type == PcmEventType::OneShot
}

/// What a stop command asks of the players.
pub open spec fn stop_requests(ctx: CommandContext, args: Seq<Value>) -> Seq<Request> {
    let players = if value::int_or(args, 0, 0) == 0 {
        Seq::empty()
    } else if buffer_before(ctx) == -1 {
        if active_before(ctx) {
            seq![Request::StopGlobalPcm]
        } else {
            Seq::empty()
        }
    } else if buffer_before(ctx) >= 0 {
        seq![Request::StopPcmSlot(buffer_before(ctx) as usize)]
    } else {
        Seq::empty()
    };
    players.push(Request::UpdateAudioRouting)
}

/// What a command on an event does to the event at its number.
pub open spec fn event_after(
    ctx: CommandContext,
    args: Seq<Value>,
    op: PcmEventOp,
    st: PcmEventState,
) -> bool {
    match op {
        PcmEventOp::Start(event_type) => started(st, start_of(args, event_type)),
        PcmEventOp::Stop => st.is_idle_default(),
        _ => was_event(
            events_of(ctx.globals, ctx.ids.form_global_pcm_event),
            event_index(ctx),
            st,
        ),
    }
}

/// The effect of a command on an event. A path that names the event alone
/// makes room for it, and so does an unknown operation, which is then left
/// to others.
pub open spec fn took_effect(
    before: CommandContext,
    after: CommandContext,
    args: Seq<Value>,
    handled: bool,
) -> bool {
    let form_id = before.ids.form_global_pcm_event;
    let index = event_index(before);
    let path = event_path(before);
    let op = if path.len() == 3 {
        PcmEventOp::Unknown
    } else {
        op_of(before.ids, path[3])
    };
    let events = events_of(after.globals, form_id);
    &&& handled == (path.len() == 3 || op != PcmEventOp::Unknown)
    &&& only_events_change(before, after)
    &&& after.globals.pcm_event_lists@.dom() == before.globals.pcm_event_lists@.dom().insert(form_id)
    &&& forall|k: u32|
        k != form_id && before.globals.pcm_event_lists@.contains_key(k)
            ==> #[trigger] after.globals.pcm_event_lists@[k] == before.globals.pcm_event_lists@[k]
    &&& events_but_one(events_of(before.globals, form_id), events, index)
    &&& event_after(before, args, op, events[index])
    &&& match op {
        PcmEventOp::Check => value::pushed_int(
            before.stack@,
            after.stack@,
            if active_before(before) {
                1
            } else {
                0
            },
        ),
        _ => after.stack == before.stack,
    }
    &&& match op {
        PcmEventOp::Stop => after.requests@ == before.requests@ + stop_requests(before, args),
        _ => after.requests == before.requests,
    }
    &&& if (op == PcmEventOp::Wait || op == PcmEventOp::WaitKey) && oneshot_before(before) {
        let key = op == PcmEventOp::WaitKey;
        after.wait == (VmWait {
            target: WaitTarget::PcmEvent {
                form: form_id,
                index: index as u32,
                key,
                result: key,
            },
            ..before.wait
        })
    } else {
        after.wait == before.wait
    }
}

/// Carries out a command on a sound event. It answers `false` where the
/// command is none.
#[verifier::rlimit(60)]
pub fn dispatch(ctx: &mut CommandContext, args: &[Value]) -> (r: Result<bool, FormError>)
    requires
        args@.len() <= i32::MAX,
    ensures
        r matches Ok(handled) && if addresses_event(*old(ctx)) {
            took_effect(*old(ctx), *final(ctx), args@, handled)
        } else {
            !handled && *final(ctx) == *old(ctx)
        },
{
    let ghost before = *ctx;
    let form_id: u32 = ctx.ids.form_global_pcm_event;
    let path = match parse_element_chain_ctx(ctx, form_id) {
        Some(path) => path,
        None => {
            return Ok(false);
        },
    };
    if path.len() < 3 || path[1] != ctx.ids.elm_array {
        return Ok(false);
    }
    let index: usize = if path[2] < 0 {
        0
    } else {
        path[2] as usize
    };
    let mut events: Vec<PcmEventState> = match ctx.globals.pcm_event_lists.remove(&form_id) {
        Some(list) => list,
        None => Vec::new(),
    };
    grow(&mut events, index);
    let op = if path.len() == 3 {
        PcmEventOp::Unknown
    } else {
        resolve_pcm_event_op(&ctx.ids, path[3])
    };
    match op {
        PcmEventOp::Start(event_type) => {
            let st = start_event(args, event_type);
            events.set(index, st);
        },
        PcmEventOp::Stop => {
            let stop_pcm: bool = arg_i64_or(args, 0, 0) != 0;
            let pcm_buf_no: i32 = events[index].pcm_buf_no;
            if stop_pcm {
                if pcm_buf_no == -1 {
                    if events[index].is_active() {
                        ctx.requests.push(Request::StopGlobalPcm);
                    }
                } else if pcm_buf_no >= 0 {
                    ctx.requests.push(Request::StopPcmSlot(pcm_buf_no as usize));
                }
            }
            ctx.requests.push(Request::UpdateAudioRouting);
            events.set(index, PcmEventState::new());
            proof {
                assert(ctx.requests@ =~= before.requests@ + stop_requests(before, args@));
            }
        },
        PcmEventOp::Check => {
            let v: i64 = if events[index].is_active() {
                1
            } else {
                0
            };
            push_int(&mut ctx.stack, v);
        },
        PcmEventOp::Wait | PcmEventOp::WaitKey => {
            let oneshot: bool = match events[index].event_type {
                PcmEventType::OneShot => true,
                _ => false,
            };
            if oneshot {
                let key: bool = match op {
                    PcmEventOp::WaitKey => true,
                    _ => false,
                };
                ctx.wait.target = WaitTarget::PcmEvent {
                    form: form_id,
                    index: index as u32,
                    key,
                    result: key,
                };
            }
        },
        PcmEventOp::Unknown => {},
    }
    let handled: bool = path.len() == 3 || match op {
        PcmEventOp::Unknown => false,
        _ => true,
    };
    let _old: Option<Vec<PcmEventState>> = ctx.globals.pcm_event_lists.insert(form_id, events);
    proof {
        assert(ctx.globals.pcm_event_lists@.dom() =~= before.globals.pcm_event_lists@.dom().insert(
            form_id,
        ));
        assert(events_of(ctx.globals, form_id) == events@);
    }
    Ok(handled)
}

fn grow(events: &mut Vec<PcmEventState>, index: usize)
    requires
        index < usize::MAX,
    ensures
        events_but_one(old(events)@, final(events)@, index as int),
        was_event(old(events)@, index as int, final(events)@[index as int]),
{
    while events.len() <= index
        invariant
            index < usize::MAX,
            old(events)@.len() <= events@.len(),
            events@.len() <= index + 1 || events@.len() == old(events)@.len(),
            forall|k: int| 0 <= k < old(events)@.len() ==> #[trigger] events@[k] == old(events)@[k],
            forall|k: int|
                old(events)@.len() <= k < events@.len()
                    ==> (#[trigger] events@[k]).is_idle_default(),
        decreases index + 1 - events@.len(),
    {
        events.push(PcmEventState::new());
    }
}

/// One step of the engine's random numbers.
pub open spec fn random_after(state: u32) -> u32 {
    let a = if state == 0 {
        0x1234_5678u32
    } else {
        state
    };
    let b = a ^ (a << 13);
    let c = b ^ (b >> 17);
    c ^ (c << 5)
}

/// Takes one step of the random numbers.
pub fn next_random(state: &mut u32) -> (r: u32)
    ensures
        r == random_after(*old(state)),
        *final(state) == r,
{
    let mut value: u32 = if *state == 0 {
        0x1234_5678
    } else {
        *state
    };
    value = value ^ (value << 13);
    value = value ^ (value >> 17);
    value = value ^ (value << 5);
    *state = value;
    value
}

/// A number from `min_value` on and below `max_value`; `min_value` where there
/// is none.
pub open spec fn random_between(state: u32, min_value: int, max_value: int) -> int {
    if max_value <= min_value {
        min_value
    } else {
        min_value + random_after(state) as int % (max_value - min_value)
    }
}

/// The random state after such a number.
pub open spec fn state_after(state: u32, min_value: int, max_value: int) -> u32 {
    if max_value <= min_value {
        state
    } else {
        random_after(state)
    }
}

/// Draws a number from `min_value` on and below `max_value`.
pub fn random_exclusive(state: &mut u32, min_value: i64, max_value: i64) -> (r: i64)
    requires
        max_value - min_value <= i64::MAX,
    ensures
        r == random_between(*old(state), min_value as int, max_value as int),
        *final(state) == state_after(*old(state), min_value as int, max_value as int),
{
    if max_value <= min_value {
        return min_value;
    }
    let span: u64 = (max_value - min_value) as u64;
    let drawn: u64 = next_random(state) as u64 % span;
    min_value + drawn as i64
}

/// A drawn number lies in its range.
pub proof fn drawn_number_lies_in_range(state: u32, min_value: int, max_value: int)
    ensures
        min_value < max_value ==> min_value <= random_between(state, min_value, max_value)
            < max_value,
        min_value >= max_value ==> random_between(state, min_value, max_value) == min_value,
{
}

/// The weight of a line: twice its probability, once for the line that was
/// played last.
pub open spec fn weight(lines: Seq<PcmEventLine>, last: i32, i: int) -> int {
    let p = if lines[i].probability < 0 {
        0
    } else {
        lines[i].probability as int
    };
    if i == last {
        p
    } else {
        2 * p
    }
}

/// The weight of the first `n` lines together.
pub open spec fn weight_of_first(lines: Seq<PcmEventLine>, last: i32, n: int) -> int
    decreases n,
{
    if n <= 0 {
        0
    } else {
        weight_of_first(lines, last, n - 1) + weight(lines, last, n - 1)
    }
}

/// Whether the line `i` covers the place `pos` when the lines are laid end to
/// end, each as long as its weight.
pub open spec fn covers(lines: Seq<PcmEventLine>, last: i32, pos: int, i: int) -> bool {
    &&& 0 <= i < lines.len()
    &&& weight_of_first(lines, last, i) <= pos < weight_of_first(lines, last, i + 1)
}

/// Whether `i` is the line that a random event plays next.
pub open spec fn random_line(st: PcmEventState, rng: u32, i: int) -> bool {
    let total = weight_of_first(st.lines@, st.cur_line_no, st.lines@.len() as int);
    if total <= 0 {
        i == 0
    } else {
        covers(st.lines@, st.cur_line_no, random_between(rng, 0, total), i)
    }
}

/// The random state after the choice of a line.
pub open spec fn state_after_line(st: PcmEventState, rng: u32) -> u32 {
    state_after(rng, 0, weight_of_first(st.lines@, st.cur_line_no, st.lines@.len() as int))
}

proof fn lemma_weights(lines: Seq<PcmEventLine>, last: i32, n: int)
    requires
        0 <= n <= lines.len(),
    ensures
        0 <= weight_of_first(lines, last, n) <= n * 0xffff_fffe,
    decreases n,
{
    if n > 0 {
        lemma_weights(lines, last, n - 1);
    }
}

proof fn lemma_weights_grow(lines: Seq<PcmEventLine>, last: i32, m: int, n: int)
    requires
        0 <= m <= n <= lines.len(),
    ensures
        weight_of_first(lines, last, m) <= weight_of_first(lines, last, n),
    decreases n - m,
{
    if m < n {
        lemma_weights_grow(lines, last, m, n - 1);
    }
}

/// At most one line covers a place, so the random choice is determined; and
/// the line that is chosen has a positive weight.
pub proof fn random_line_is_unique(st: PcmEventState, rng: u32, i: int, j: int)
    requires
        random_line(st, rng, i),
        random_line(st, rng, j),
    ensures
        i == j,
        weight_of_first(st.lines@, st.cur_line_no, st.lines@.len() as int) > 0 ==> weight(
            st.lines@,
            st.cur_line_no,
            i,
        ) > 0,
{
    if weight_of_first(st.lines@, st.cur_line_no, st.lines@.len() as int) > 0 {
        if i < j {
            lemma_weights_grow(st.lines@, st.cur_line_no, i + 1, j);
        } else if j < i {
            lemma_weights_grow(st.lines@, st.cur_line_no, j + 1, i);
        }
    }
}

fn line_weight(lines: &Vec<PcmEventLine>, last: i32, i: usize) -> (w: i64)
    requires
        i < lines@.len() <= i32::MAX,
    ensures
        w == weight(lines@, last, i as int),
        0 <= w <= 0xffff_fffe,
{
    let p: i64 = if lines[i].probability < 0 {
        0
    } else {
        lines[i].probability as i64
    };
    if i as i32 == last {
        p
    } else {
        p * 2
    }
}

fn select_random_line(st: &mut PcmEventState, rng_state: &mut u32) -> (r: Option<usize>)
    requires
        old(st).wf(),
    ensures
        match r {
            Some(i) => {
                &&& random_line(*old(st), *old(rng_state), i as int)
                &&& i < old(st).lines@.len()
                &&& *final(st) == (PcmEventState {
                    cur_line_no: i as i32,
                    last_line_no: old(st).cur_line_no,
                    ..*old(st)
                })
                &&& *final(rng_state) == state_after_line(*old(st), *old(rng_state))
            },
            None => {
                &&& old(st).lines@.len() == 0
                &&& *final(st) == *old(st)
                &&& *final(rng_state) == *old(rng_state)
            },
        },
{
    let line_count: usize = st.lines.len();
    if line_count == 0 {
        return None;
    }
    let last: i32 = st.cur_line_no;
    st.last_line_no = last;
    let ghost lines = st.lines@;
    let mut total: i64 = 0;
    let mut i: usize = 0;
    while i < line_count
        invariant
            line_count == lines.len(),
            lines == st.lines@,
            lines.len() <= i32::MAX,
            i <= line_count,
            total == weight_of_first(lines, last, i as int),
            0 <= total <= i * 0xffff_fffe,
        decreases line_count - i,
    {
        proof {
            lemma_weights(lines, last, i as int);
            lemma_weights(lines, last, i + 1);
        }
        total = total + line_weight(&st.lines, last, i);
        i = i + 1;
    }
    if total <= 0 {
        st.cur_line_no = 0;
        return Some(0);
    }
    let pos: i64 = random_exclusive(rng_state, 0, total);
    let mut current: i64 = 0;
    let mut index: usize = 0;
    while index < line_count
        invariant
            line_count == lines.len(),
            lines == st.lines@,
            lines.len() <= i32::MAX,
            index <= line_count,
            current == weight_of_first(lines, last, index as int),
            current <= pos,
            0 <= pos < total,
            total == weight_of_first(lines, last, lines.len() as int),
            last == old(st).cur_line_no,
            lines == old(st).lines@,
            *st == (PcmEventState { last_line_no: last, ..*old(st) }),
            *rng_state == state_after_line(*old(st), *old(rng_state)),
            pos == random_between(*old(rng_state), 0, total as int),
        decreases line_count - index,
    {
        proof {
            lemma_weights(lines, last, index as int);
            lemma_weights(lines, last, index + 1);
        }
        current = current + line_weight(&st.lines, last, index);
        if pos < current {
            st.cur_line_no = index as i32;
            return Some(index);
        }
        index = index + 1;
    }
    proof {
        assert(false);
    }
    None
}

/// A sound that is due.
#[derive(Debug)]
pub struct PendingEventPlay {
    pub pcm_buf_no: i32,
    pub file_name: String,
    pub volume_type: i32,
    pub chara_no: i32,
    pub bgm_fade_target_flag: bool,
    pub bgm_fade2_target_flag: bool,
    pub bgm_fade_source_flag: bool,
    pub time_type: bool,
    pub min_time: i32,
    pub max_time: i32,
}

/// Whether `p` is the line `i` of an event, with the event's settings.
pub open spec fn plays_line(p: PendingEventPlay, st: PcmEventState, i: int) -> bool {
    &&& 0 <= i < st.lines@.len()
    &&& p.pcm_buf_no == st.pcm_buf_no
    &&& p.file_name@ == st.lines@[i].file_name@
    &&& p.volume_type == st.volume_type
    &&& p.chara_no == st.chara_no
    &&& p.bgm_fade_target_flag == st.bgm_fade_target_flag
    &&& p.bgm_fade2_target_flag == st.bgm_fade2_target_flag
    &&& p.bgm_fade_source_flag == st.bgm_fade_source_flag
    &&& p.time_type == st.time_type
    &&& p.min_time == st.lines@[i].min_time
    &&& p.max_time == st.lines@[i].max_time
}

/// Whether an event has a sound due.
pub open spec fn is_due(st: PcmEventState) -> bool {
    st.active() && st.cur_time >= st.next_time
}

/// Whether a due event comes to its end: it has no line left to play.
pub open spec fn runs_out(st: PcmEventState) -> bool {
    if st.event_type == PcmEventType::OneShot {
        st.cur_line_no + 1 >= st.lines@.len()
    } else {
        st.lines@.len() == 0
    }
}

/// Whether `i` is the line that a due event plays next.
pub open spec fn next_line(st: PcmEventState, rng: u32, i: int) -> bool {
    match st.event_type {
        PcmEventType::OneShot => i == st.cur_line_no + 1,
        PcmEventType::Loop => i == (st.cur_line_no + 1) % st.lines@.len() as int,
        _ => random_line(st, rng, i),
    }
}

/// What becomes of an event, and of the random numbers, when it is asked for
/// the sound that is due.
pub open spec fn prepared(
    before: PcmEventState,
    after: PcmEventState,
    rng_before: u32,
    rng_after: u32,
    r: Option<PendingEventPlay>,
) -> bool {
    match r {
        Some(p) => {
            let i = after.cur_line_no as int;
            let random = before.event_type == PcmEventType::Random;
            &&& is_due(before) && !runs_out(before)
            &&& next_line(before, rng_before, i)
            &&& plays_line(p, before, i)
            &&& after == (PcmEventState {
                cur_time: 0,
                cur_line_no: i as i32,
                last_line_no: if random {
                    before.cur_line_no
                } else {
                    before.last_line_no
                },
                ..before
            })
            &&& rng_after == if random {
                state_after_line(before, rng_before)
            } else {
                rng_before
            }
        },
        None => {
            &&& rng_after == rng_before
            &&& if is_due(before) {
                runs_out(before) && after.is_idle_default()
            } else {
                after == before
            }
        },
    }
}

/// The sound that is due, if there is one. An event that has run out ends.
pub fn prepare_next_play(st: &mut PcmEventState, rng_state: &mut u32) -> (r: Option<
    PendingEventPlay,
>)
    requires
        old(st).wf(),
    ensures
        final(st).wf(),
        prepared(*old(st), *final(st), *old(rng_state), *final(rng_state), r),
{
    if !st.is_active() || st.cur_time < st.next_time {
        return None;
    }
    let index: usize = match st.event_type {
        PcmEventType::OneShot => {
            let next: i32 = st.cur_line_no + 1;
            if next as usize >= st.lines.len() {
                st.reinit();
                return None;
            }
            st.cur_line_no = next;
            next as usize
        },
        PcmEventType::Loop => {
            if st.lines.len() == 0 {
                st.reinit();
                return None;
            }
            let len: i32 = st.lines.len() as i32;
            st.cur_line_no = (st.cur_line_no + 1) % len;
            st.cur_line_no as usize
        },
        PcmEventType::Random => match select_random_line(st, rng_state) {
            Some(index) => index,
            None => {
                st.reinit();
                return None;
            },
        },
        PcmEventType::Idle => {
            return None;
        },
    };
    st.cur_time = 0;
    let line = &st.lines[index];
    Some(
        PendingEventPlay {
            pcm_buf_no: st.pcm_buf_no,
            file_name: line.file_name.clone(),
            volume_type: st.volume_type,
            chara_no: st.chara_no,
            bgm_fade_target_flag: st.bgm_fade_target_flag,
            bgm_fade2_target_flag: st.bgm_fade2_target_flag,
            bgm_fade_source_flag: st.bgm_fade_source_flag,
            time_type: st.time_type,
            min_time: line.min_time,
            max_time: line.max_time,
        },
    )
}

/// Where a sound is played.
#[derive(Debug, Clone, Copy, PartialEq, Eq, Structural)]
pub enum PlayTarget {
    Global,
    Channel(usize),
    Nowhere,
}

/// Where a sound is played: -1 stands for the global player, and other
/// negative numbers for none.
pub fn play_target(pending: &PendingEventPlay) -> (r: PlayTarget)
    ensures
        r == (if pending.pcm_buf_no == -1 {
            PlayTarget::Global
        } else if pending.pcm_buf_no >= 0 {
            PlayTarget::Channel(pending.pcm_buf_no as usize)
        } else {
            PlayTarget::Nowhere
        }),
{
    if pending.pcm_buf_no == -1 {
        PlayTarget::Global
    } else if pending.pcm_buf_no >= 0 {
        PlayTarget::Channel(pending.pcm_buf_no as usize)
    } else {
        PlayTarget::Nowhere
    }
}

/// The time of an event after a frame. Time does not run backwards.
pub open spec fn time_after(st: PcmEventState, game_delta_ms: i32, real_delta_ms: i32) -> int {
    let delta = if st.real_flag {
        real_delta_ms
    } else {
        game_delta_ms
    };
    let time = st.cur_time + if delta < 0 {
        0
    } else {
        delta as int
    };
    if !st.active() {
        st.cur_time as int
    } else if time > i64::MAX {
        i64::MAX as int
    } else {
        time
    }
}

/// Moves the time of an event on by one frame.
pub fn advance(st: &mut PcmEventState, game_delta_ms: i32, real_delta_ms: i32)
    ensures
        *final(st) == (PcmEventState {
            cur_time: time_after(*old(st), game_delta_ms, real_delta_ms) as i64,
            ..*old(st)
        }),
{
    if st.is_active() {
        let delta: i32 = if st.real_flag {
            real_delta_ms
        } else {
            game_delta_ms
        };
        let forward: i64 = if delta < 0 {
            0
        } else {
            delta as i64
        };
        st.cur_time = if st.cur_time > i64::MAX - forward {
            i64::MAX
        } else {
            st.cur_time + forward
        };
    }
}

/// How many sounds of one event a frame plays at most, so that an event whose
/// lines take no time does not hold the frame up.
pub const PLAYS_PER_FRAME: u32 = 1024;

/// The sound that is due, unless the frame has played as many of this event
/// as it may.
pub fn next_play_in_frame(st: &mut PcmEventState, rng_state: &mut u32, played: u32) -> (r: Option<
    PendingEventPlay,
>)
    requires
        old(st).wf(),
    ensures
        final(st).wf(),
        if played >= PLAYS_PER_FRAME {
            &&& r is None
            &&& *final(st) == *old(st)
            &&& *final(rng_state) == *old(rng_state)
        } else {
            prepared(*old(st), *final(st), *old(rng_state), *final(rng_state), r)
        },
{
    if played >= PLAYS_PER_FRAME {
        return None;
    }
    prepare_next_play(st, rng_state)
}

/// The time until the next sound: drawn from the line's range, with the length
/// of the sound where the event counts from its end.
pub open spec fn next_time_of(p: PendingEventPlay, duration_ms: int, rng: u32) -> int {
    let lo = if p.min_time < p.max_time {
        p.min_time as int
    } else {
        p.max_time as int
    };
    let hi = if p.min_time < p.max_time {
        p.max_time as int
    } else {
        p.min_time as int
    };
    let drawn = random_between(rng, lo, hi);
    let sum = drawn + duration_ms;
    if !p.time_type {
        drawn
    } else if sum > i64::MAX {
        i64::MAX as int
    } else if sum < i64::MIN {
        i64::MIN as int
    } else {
        sum
    }
}

/// Sets the time until the next sound of an event whose sound has been
/// played.
pub fn schedule_next(
    st: &mut PcmEventState,
    rng_state: &mut u32,
    pending: &PendingEventPlay,
    duration_ms: i64,
)
    ensures
        *final(st) == (PcmEventState {
            next_time: next_time_of(*pending, duration_ms as int, *old(rng_state)) as i64,
            ..*old(st)
        }),
        *final(rng_state) == (if pending.min_time != pending.max_time {
            random_after(*old(rng_state))
        } else {
            *old(rng_state)
        }),
{
    let lo: i64 = if pending.min_time < pending.max_time {
        pending.min_time as i64
    } else {
        pending.max_time as i64
    };
    let hi: i64 = if pending.min_time < pending.max_time {
        pending.max_time as i64
    } else {
        pending.min_time as i64
    };
    let mut next_time: i64 = random_exclusive(rng_state, lo, hi);
    if pending.time_type {
        let sum: i128 = next_time as i128 + duration_ms as i128;
        next_time = if sum > i64::MAX as i128 {
            i64::MAX
        } else if sum < i64::MIN as i128 {
            i64::MIN
        } else {
            sum as i64
        };
    }
    st.next_time = next_time;
}

/// An event plays nothing before its time has come, and then plays a line of its
/// own: one that is played once goes through its lines in order and ends behind
/// the last; one that is repeated begins again behind its last line.
pub proof fn lines_are_played_in_their_order(
    before: PcmEventState,
    after: PcmEventState,
    rng_before: u32,
    rng_after: u32,
    r: Option<PendingEventPlay>,
)
    requires
        prepared(before, after, rng_before, rng_after, r),
        -1 <= before.cur_line_no < before.lines@.len(),
        before.lines@.len() > 0,
    ensures
        r is Some ==> before.cur_time >= before.next_time && before.event_type != PcmEventType::Idle
            && after.cur_time == 0 && after.next_time == before.next_time,
        before.cur_time < before.next_time || before.event_type == PcmEventType::Idle ==> r is None
            && after == before,
        before.event_type == PcmEventType::OneShot && before.cur_time >= before.next_time ==> {
            let next = before.cur_line_no + 1;
            &&& next < before.lines@.len() ==> (r matches Some(p) && p.file_name@
                == before.lines@[next].file_name@ && after.cur_line_no == next && rng_after
                == rng_before)
            &&& next == before.lines@.len() ==> r is None && after.event_type == PcmEventType::Idle
        },
        before.event_type == PcmEventType::Loop && before.cur_time >= before.next_time ==> {
            let next = if before.cur_line_no + 1 == before.lines@.len() {
                0
            } else {
                before.cur_line_no + 1
            };
            r matches Some(p) && p.file_name@ == before.lines@[next].file_name@
                && after.cur_line_no == next
        },
{
    if before.event_type == PcmEventType::Loop {
        let n = before.lines@.len() as int;
        let k = before.cur_line_no + 1;
        if k == n {
            vstd::arithmetic::div_mod::lemma_mod_self_0(n);
        } else {
            vstd::arithmetic::div_mod::lemma_small_mod(k as nat, n as nat);
        }
    }
}

/// In a shuffled event every line has a share of the draws that is twice its
/// probability, and half of that right after it was played; a line without a
/// probability has none, and all shares together are the draws.
pub proof fn lines_are_drawn_by_their_probability(
    lines: Seq<PcmEventLine>,
    last: i32,
    i: int,
    pos: int,
)
    requires
        0 <= i < lines.len(),
    ensures
        ({
            let from = weight_of_first(lines, last, i);
            let to = weight_of_first(lines, last, i + 1);
            let p = lines[i].probability;
            &&& weight_of_first(lines, last, 0) == 0
            &&& p <= 0 ==> to == from
            &&& p > 0 && i != last ==> to - from == 2 * p
            &&& p > 0 && i == last ==> to - from == p
            &&& covers(lines, last, pos, i) <==> from <= pos < to
        }),
{
}

/// Time passes for an event that is playing alone: the time of the game, or the
/// real time where it says so, and never backwards.
pub proof fn events_count_the_time_that_passes(st: PcmEventState, game_ms: i32, real_ms: i32)
    requires
        st.cur_time + 0x7fff_ffff <= i64::MAX,
    ensures
        st.event_type == PcmEventType::Idle ==> time_after(st, game_ms, real_ms) == st.cur_time,
        st.event_type != PcmEventType::Idle && st.real_flag && real_ms >= 0 ==> time_after(
            st,
            game_ms,
            real_ms,
        ) == st.cur_time + real_ms,
        st.event_type != PcmEventType::Idle && !st.real_flag && game_ms >= 0 ==> time_after(
            st,
            game_ms,
            real_ms,
        ) == st.cur_time + game_ms,
        game_ms < 0 && real_ms < 0 ==> time_after(st, game_ms, real_ms) == st.cur_time,
{
}

/// The next line comes after a time between the two that the last one names,
/// whichever of them is larger, and where the event counts from the end of a
/// line, after its duration as well.
pub proof fn the_next_line_comes_in_its_time(p: PendingEventPlay, duration_ms: int, rng: u32)
    requires
        0 <= duration_ms <= 0x7fff_ffff,
    ensures
        ({
            let t = next_time_of(p, duration_ms, rng);
            let lo = if p.min_time <= p.max_time {
                p.min_time
            } else {
                p.max_time
            };
            let hi = if p.min_time <= p.max_time {
                p.max_time
            } else {
                p.min_time
            };
            let from = if p.time_type {
                duration_ms
            } else {
                0
            };
            &&& lo < hi ==> lo + from <= t < hi + from
            &&& lo == hi ==> t == lo + from
        }),
{
    let lo = if p.min_time < p.max_time {
        p.min_time as int
    } else {
        p.max_time as int
    };
    let hi = if p.min_time < p.max_time {
        p.max_time as int
    } else {
        p.min_time as int
    };
    drawn_number_lies_in_range(rng, lo, hi);
}

/// A start takes the buffer from its first argument and every setting from the
/// argument of that name, wherever it stands; a volume type that is none counts
/// as the sounds' own.
pub proof fn starts_take_their_settings_by_name(
    buffer: i64,
    id: i32,
    setting: Value,
    n: i64,
    event_type: PcmEventType,
)
    requires
        setting == (Value::NamedArg { id, value: Box::new(Value::Int(n)) }),
        i32::MIN <= buffer <= i32::MAX,
        i32::MIN <= n <= i32::MAX,
    ensures
        ({
            let s = start_of(seq![Value::Int(buffer), setting], event_type);
            &&& s.event_type == event_type
            &&& s.pcm_buf_no == buffer
            &&& id == 3 ==> s.volume_type == (if -1 <= n < 32 {
                n as i32
            } else {
                2i32
            })
            &&& id != 3 ==> s.volume_type == 2
            &&& s.chara_no == (if id == 6 {
                n as i32
            } else {
                -1i32
            })
            &&& s.bgm_fade_target == (id == 4 && n != 0)
            &&& s.bgm_fade2_target == (id == 5 && n != 0)
            &&& s.bgm_fade_source == (id == 12 && n != 0)
            &&& s.time_type == (id == 11 && n != 0)
            &&& s.lines.len() == 0
        }),
{
    let args = seq![Value::Int(buffer), setting];
    let rest = args.drop_first();
    assert(rest =~= seq![setting]);
    assert(rest.drop_first() =~= Seq::<Value>::empty());
    reveal_with_fuel(named, 3);
    assert(args.drop_last() =~= seq![Value::Int(buffer)]);
    assert(args.drop_last().drop_last() =~= Seq::<Value>::empty());
    reveal_with_fuel(lines_of, 3);
    assert(setting.number() == Some(n));
}

/// Every file that a start names becomes a line, in their order: a name alone is
/// played without a pause, and in a shuffled event with the probability 1.
pub proof fn named_files_become_lines(args: Seq<Value>, file: Value, name: Seq<char>, random: bool)
    requires
        file is Str,
        file->Str_0@ == name,
    ensures
        ({
            let lines = lines_of(args.push(file), random);
            &&& lines.len() == lines_of(args, random).len() + 1
            &&& lines.drop_last() == lines_of(args, random)
            &&& lines.last().file_name == name
            &&& lines.last().min_time == 0 && lines.last().max_time == 0
            &&& random ==> lines.last().probability == 1
        }),
{
    assert(args.push(file).drop_last() =~= args);
    let front = lines_of(args, random);
    assert(lines_of(args.push(file), random).drop_last() =~= front);
}

/// A line with times is played in between them: a list names the file, in a
/// shuffled event its probability, and then the shortest and the longest time;
/// where the longest is missing it is the shortest.
pub proof fn listed_lines_name_their_times(
    item: Value,
    items: Seq<Value>,
    name: Seq<char>,
    probability: i32,
    lo: i32,
    hi: i32,
)
    requires
        item is List,
        item->List_0@ == items,
        items.len() >= 4,
        items[0].text() == Some(name),
        name.len() > 0,
        items[1].number() == Some(probability as i64),
        items[2].number() == Some(lo as i64),
        items[3].number() == Some(hi as i64),
    ensures
        line_of(item, true) == Some(
            LineView { file_name: name, probability, min_time: lo, max_time: hi },
        ),
        line_of(item, false) matches Some(line) && line.file_name == name && line.min_time
            == probability && line.max_time == lo,
{
}

/// A stop that asks for it stops the player of the event's own buffer, or the
/// common one where the event plays without a buffer; and the mixer is told in
/// any case.
pub proof fn stops_reach_the_events_own_player(ctx: CommandContext, args: Seq<Value>, buffer: int)
    requires
        buffer == buffer_before(ctx),
    ensures
        ({
            let out = stop_requests(ctx, args);
            &&& out.last() == Request::UpdateAudioRouting
            &&& value::int_or(args, 0, 0) == 0 ==> out.len() == 1
            &&& value::int_or(args, 0, 0) != 0 && buffer >= 0 ==> out.len() == 2 && out[0]
                == Request::StopPcmSlot(buffer as usize)
            &&& value::int_or(args, 0, 0) != 0 && buffer == -1 && active_before(ctx) ==> out.len()
                == 2 && out[0] == Request::StopGlobalPcm
            &&& value::int_or(args, 0, 0) != 0 && buffer == -1 && !active_before(ctx) ==> out.len()
                == 1
        }),
{
}

} // verus!
