//! Continuations that a save holds as the engine's own procedure records.
//!
//! A record is 147 bytes or longer: the kind, the element path in a field of
//! fixed size, the argument list number, the arguments, three flags and an
//! option. The stack of records is bottom-first, with the running procedure
//! stored apart, so it must not be flattened into one wait.

use vstd::prelude::*;
use crate::bytes;
use crate::bytes::read_i32;
use crate::runtime::flow;
use crate::runtime::flow::{HostFlowSnapshot, ProcFrame, ProcType};
use crate::runtime::stream;
use crate::runtime::stream::StreamReader;
use crate::runtime::value::Value;
use crate::runtime::wait::{AudioWait, VmWait, WaitTarget};
use crate::vm::window_animation::ChildPlace;

verus! {

/// Room for element numbers in a record.
pub const ELEMENT_CAPACITY: usize = 31;

/// Size of a record without arguments.
pub const MIN_RECORD: usize = 147;

/// Why a continuation cannot be resumed.
#[derive(Debug, Clone, Copy, PartialEq, Eq, Structural)]
pub enum NativeError {
    Truncated,
    InvalidKind(i32),
    InvalidElement,
    /// The arguments cannot be read.
    InvalidArguments,
    /// Something stands behind the option.
    TrailingData,
    InvalidStackSize,
    InvalidLoadIndex,
    NoBacklogTarget,
    MissingEventTarget,
    Unsupported(i32),
}

/// Whether a procedure of this kind can be resumed at all.
pub open spec fn resumable(kind: int) -> bool {
    0 <= kind <= 51 && !(10 <= kind <= 13)
}

/// The kind of a record that can be resumed, or why it cannot.
pub open spec fn native_kind(b: Seq<u8>) -> Result<int, NativeError> {
    if b.len() < MIN_RECORD {
        Err(NativeError::Truncated)
    } else if !resumable(bytes::i32_at(b, 0)) {
        Err(NativeError::InvalidKind(bytes::i32_at(b, 0) as i32))
    } else {
        Ok(bytes::i32_at(b, 0))
    }
}

pub fn restorable_native_kind(b: &[u8]) -> (r: Result<i32, NativeError>)
    ensures
        match (r, native_kind(b@)) {
            (Ok(k), Ok(n)) => k == n && resumable(n),
            (Err(x), Err(y)) => x == y,
            _ => false,
        },
{
    if b.len() < MIN_RECORD {
        return Err(NativeError::Truncated);
    }
    let kind: i32 = read_i32(b, 0);
    if kind < 0 || kind > 51 || (10 <= kind && kind <= 13) {
        return Err(NativeError::InvalidKind(kind));
    }
    Ok(kind)
}

/// The error of the first record that cannot be resumed.
pub open spec fn first_error(records: Seq<Vec<u8>>) -> Option<NativeError>
    decreases records.len(),
{
    if records.len() == 0 {
        None
    } else {
        match first_error(records.drop_last()) {
            Some(e) => Some(e),
            None => match native_kind(records.last()@) {
                Ok(_) => None,
                Err(e) => Some(e),
            },
        }
    }
}

proof fn lemma_first_error(records: Seq<Vec<u8>>, k: int)
    requires
        0 <= k <= records.len(),
        first_error(records.take(k)) is Some,
    ensures
        first_error(records) == first_error(records.take(k)),
    decreases records.len(),
{
    if k < records.len() {
        assert(records.drop_last().take(k) =~= records.take(k));
        lemma_first_error(records.drop_last(), k);
    } else {
        assert(records.take(k) =~= records);
    }
}

/// Looks at all continuations of a save before anything of the running scene
/// is torn down. `count` is the saved size of the stack below the running
/// procedure.
pub fn preflight_original_local_procs(current: &[u8], count: i32, stack: &[Vec<u8>]) -> (r: Result<
    (),
    NativeError,
>)
    ensures
        r == (match native_kind(current@) {
            Err(e) => Err::<(), NativeError>(e),
            Ok(_) => if count < 0 || count > 4096 {
                Err(NativeError::InvalidStackSize)
            } else {
                match first_error(stack@) {
                    Some(e) => Err(e),
                    None => Ok(()),
                }
            },
        }),
{
    match restorable_native_kind(current) {
        Err(e) => {
            return Err(e);
        },
        Ok(_) => {},
    }
    if count < 0 || count > 4096 {
        return Err(NativeError::InvalidStackSize);
    }
    let mut i: usize = 0;
    proof {
        assert(stack@.take(0) =~= Seq::<Vec<u8>>::empty());
    }
    while i < stack.len()
        invariant
            i <= stack@.len(),
            first_error(stack@.take(i as int)) is None,
            0 <= count <= 4096,
            native_kind(current@) is Ok,
        decreases stack@.len() - i,
    {
        proof {
            assert(stack@.take(i + 1).drop_last() =~= stack@.take(i as int));
            assert(stack@.take(i + 1).last() == stack@[i as int]);
        }
        match restorable_native_kind(stack[i].as_slice()) {
            Err(e) => {
                proof {
                    lemma_first_error(stack@, i + 1);
                }
                return Err(e);
            },
            Ok(_) => {},
        }
        i = i + 1;
    }
    proof {
        assert(stack@.take(i as int) =~= stack@);
    }
    Ok(())
}

/// A decoded record. The arguments stay as they are stored.
#[derive(Debug)]
pub struct NativeRecord {
    pub kind: i32,
    pub element: Vec<i32>,
    pub al_id: i32,
    pub args: Vec<u8>,
    pub key: bool,
    pub skip_disabled: bool,
    pub leaves_result: bool,
    pub option: i32,
}

/// What a record says.
#[verifier::ext_equal]
pub struct NativeView {
    pub kind: int,
    pub element: Seq<i32>,
    pub al_id: int,
    pub args: Seq<u8>,
    pub key: bool,
    pub skip_disabled: bool,
    pub leaves_result: bool,
    pub option: int,
}

impl NativeRecord {
    pub open spec fn view(&self) -> NativeView {
        NativeView {
            kind: self.kind as int,
            element: self.element@,
            al_id: self.al_id as int,
            args: self.args@,
            key: self.key,
            skip_disabled: self.skip_disabled,
            leaves_result: self.leaves_result,
            option: self.option as int,
        }
    }
}

/// Where the arguments of a record begin.
pub const ARGS_START: usize = 136;

/// What the record `b` says: the kind, the path and the argument list number
/// stand at the front, the arguments behind them, and the flags and the option
/// follow at once where the arguments end. Nothing may stand behind.
/// `args_end` is where a reader of the typed arguments stopped, if it read
/// them.
pub open spec fn native_of(b: Seq<u8>, args_end: Option<usize>) -> Result<NativeView, NativeError> {
    let n = b.len() as int;
    if n < MIN_RECORD {
        Err(NativeError::Truncated)
    } else {
        match stream::element_of(b.subrange(4, 132), ELEMENT_CAPACITY as int) {
            Err(_) => Err(NativeError::InvalidElement),
            Ok((element, _)) => match args_end {
                None => Err(NativeError::InvalidArguments),
                Some(end) => if end < ARGS_START {
                    Err(NativeError::InvalidArguments)
                } else if end + 7 > n {
                    Err(NativeError::Truncated)
                } else if end + 7 < n {
                    Err(NativeError::TrailingData)
                } else {
                    Ok(
                        NativeView {
                            kind: bytes::i32_at(b, 0),
                            element,
                            al_id: bytes::i32_at(b, 132),
                            args: b.subrange(136, end as int),
                            key: b[end as int] != 0,
                            skip_disabled: b[end + 1] != 0,
                            leaves_result: b[end + 2] != 0,
                            option: bytes::i32_at(b, end + 3),
                        },
                    )
                },
            },
        }
    }
}

/// Decodes a record. `args_end` is where a reader of the typed arguments that
/// begins at `ARGS_START` stopped, or `None` where it could not read them.
pub fn decode_native_proc(b: &[u8], args_end: Option<usize>) -> (r: Result<
    NativeRecord,
    NativeError,
>)
    ensures
        match (r, native_of(b@, args_end)) {
            (Ok(p), Ok(v)) => p@ == v,
            (Err(x), Err(y)) => x == y,
            _ => false,
        },
{
    let n: usize = b.len();
    if n < MIN_RECORD {
        return Err(NativeError::Truncated);
    }
    let path = vstd::slice::slice_subrange(b, 4, 132);
    let mut rd = StreamReader::new(path);
    let element = match rd.element(ELEMENT_CAPACITY) {
        Ok(v) => v,
        Err(_) => {
            return Err(NativeError::InvalidElement);
        },
    };
    let end: usize = match args_end {
        Some(end) => end,
        None => {
            return Err(NativeError::InvalidArguments);
        },
    };
    if end < ARGS_START {
        return Err(NativeError::InvalidArguments);
    }
    if end > n - 7 {
        return Err(NativeError::Truncated);
    }
    if end < n - 7 {
        return Err(NativeError::TrailingData);
    }
    let args = vstd::slice::slice_to_vec(vstd::slice::slice_subrange(b, ARGS_START, end));
    let record = NativeRecord {
        kind: read_i32(b, 0),
        element,
        al_id: read_i32(b, 132),
        args,
        key: b[end] != 0,
        skip_disabled: b[end + 1] != 0,
        leaves_result: b[end + 2] != 0,
        option: read_i32(b, end + 3),
    };
    Ok(record)
}

/// The procedure that the host runs for a record of this kind.
pub open spec fn host_proc(kind: int) -> ProcType {
    if kind == 1 {
        ProcType::Script
    } else if kind == 2 || kind == 46 {
        ProcType::Disp
    } else if kind == 4 {
        ProcType::GameEndWipe
    } else if kind == 5 {
        ProcType::GameTimerStart
    } else if kind == 8 {
        ProcType::ReturnToMenu
    } else if kind == 17 {
        ProcType::MsgBack
    } else if kind == 44 {
        ProcType::EndGame
    } else if kind == 45 {
        ProcType::StartWarning
    } else {
        ProcType::Native
    }
}

/// The procedure on the host's stack that stands for a record.
pub open spec fn stands_for(f: ProcFrame, record: Seq<u8>) -> bool {
    &&& f.ty == host_proc(bytes::i32_at(record, 0))
    &&& f.option == bytes::i32_at(record, record.len() - 4)
    &&& f.deadline_frame is None
    &&& f.native_record@ == record
    &&& !f.native_started
}

/// The records that the host resumes: those of kind 0 hold a place only.
pub open spec fn kept_records(records: Seq<Vec<u8>>) -> Seq<Seq<u8>>
    decreases records.len(),
{
    if records.len() == 0 {
        Seq::empty()
    } else {
        let head = kept_records(records.drop_last());
        let last = records.last()@;
        if bytes::i32_at(last, 0) == 0 {
            head
        } else {
            head.push(last)
        }
    }
}

/// Whether the procedures stand for the records, one for one and in order.
pub open spec fn stack_stands_for(stack: Seq<ProcFrame>, records: Seq<Seq<u8>>) -> bool {
    &&& stack.len() == records.len()
    &&& forall|i: int| 0 <= i < stack.len() ==> stands_for(#[trigger] stack[i], records[i])
}

/// The host's stack for a stack of records, `None` where nothing is left to
/// resume, or the error of the first record that cannot be resumed.
pub fn native_proc_flow(records: Vec<Vec<u8>>) -> (r: Result<
    Option<HostFlowSnapshot>,
    NativeError,
>)
    ensures
        match (r, first_error(records@)) {
            (Err(x), Some(y)) => x == y,
            (Ok(None), None) => kept_records(records@).len() == 0,
            (Ok(Some(s)), None) => {
                &&& kept_records(records@).len() > 0
                &&& stack_stands_for(s.flow.stack@, kept_records(records@))
                &&& s.flow.booted_menu
                &&& s.flow.pending_syscom_proc is None
                &&& s.suspended_waits@.len() == 0
                &&& s.host_frame == 0
            },
            _ => false,
        },
{
    let mut snapshot = HostFlowSnapshot::default();
    snapshot.flow.booted_menu = true;
    let mut i: usize = 0;
    proof {
        assert(records@.take(0) =~= Seq::<Vec<u8>>::empty());
    }
    while i < records.len()
        invariant
            i <= records@.len(),
            first_error(records@.take(i as int)) is None,
            stack_stands_for(snapshot.flow.stack@, kept_records(records@.take(i as int))),
            snapshot.flow.booted_menu,
            snapshot.flow.pending_syscom_proc is None,
            snapshot.suspended_waits@.len() == 0,
            snapshot.host_frame == 0,
        decreases records@.len() - i,
    {
        proof {
            assert(records@.take(i + 1).drop_last() =~= records@.take(i as int));
            assert(records@.take(i + 1).last() == records@[i as int]);
        }
        let kind: i32 = match restorable_native_kind(records[i].as_slice()) {
            Ok(k) => k,
            Err(e) => {
                proof {
                    lemma_first_error(records@, i + 1);
                }
                return Err(e);
            },
        };
        if kind != 0 {
            let ty = if kind == 1 {
                ProcType::Script
            } else if kind == 2 || kind == 46 {
                ProcType::Disp
            } else if kind == 4 {
                ProcType::GameEndWipe
            } else if kind == 5 {
                ProcType::GameTimerStart
            } else if kind == 8 {
                ProcType::ReturnToMenu
            } else if kind == 17 {
                ProcType::MsgBack
            } else if kind == 44 {
                ProcType::EndGame
            } else if kind == 45 {
                ProcType::StartWarning
            } else {
                ProcType::Native
            };
            let n: usize = records[i].len();
            let option: i32 = read_i32(records[i].as_slice(), n - 4);
            let native_record = vstd::slice::slice_to_vec(records[i].as_slice());
            let ghost before = snapshot.flow.stack@;
            snapshot.flow.stack.push(
                ProcFrame {
                    ty,
                    option,
                    deadline_frame: None,
                    native_record,
                    native_started: false,
                },
            );
            proof {
                let kept = kept_records(records@.take(i as int));
                let now = snapshot.flow.stack@;
                assert forall|k: int| 0 <= k < now.len() implies stands_for(
                    #[trigger] now[k],
                    kept.push(records@[i as int]@)[k],
                ) by {
                    if k < before.len() {
                        assert(now[k] == before[k]);
                        assert(stands_for(before[k], kept[k]));
                    }
                }
            }
        }
        i = i + 1;
    }
    proof {
        assert(records@.take(i as int) =~= records@);
    }
    if snapshot.flow.stack.len() == 0 {
        Ok(None)
    } else {
        Ok(Some(snapshot))
    }
}

/// Element numbers by which a stage and its children are named.
#[derive(Debug, Clone, Copy)]
pub struct StageCodes {
    pub back: i32,
    pub front: i32,
    pub next: i32,
    pub array: i32,
}

/// The first place where `child` is followed by the array number and an index.
pub open spec fn child_place(element: Seq<i32>, child: i32, array: i32, from: int) -> Option<int>
    decreases element.len() - from,
{
    if from < 0 || from + 3 > element.len() {
        None
    } else if element[from] == child && element[from + 1] == array {
        Some(from)
    } else {
        child_place(element, child, array, from + 1)
    }
}

/// The stage that a path begins at.
pub open spec fn stage_of(element: Seq<i32>, codes: StageCodes, is_stage: bool) -> Option<int> {
    if element.len() == 0 {
        None
    } else if element[0] == codes.back {
        Some(0)
    } else if element[0] == codes.front {
        Some(1)
    } else if element[0] == codes.next {
        Some(2)
    } else if is_stage && element.len() >= 3 && element[1] == codes.array {
        Some(element[2] as int)
    } else {
        None
    }
}

/// The stage and the index of the child that a path names. `is_stage` says
/// whether the path's first number is that of a stage list.
pub fn native_stage_child(
    element: &[i32],
    child: i32,
    codes: StageCodes,
    is_stage: bool,
) -> (r: Option<(i64, usize)>)
    ensures
        match (stage_of(element@, codes, is_stage), child_place(element@, child, codes.array, 0)) {
            (Some(stage), Some(k)) => match r {
                Some(child) => child.0 == stage && child.1 == element@[k + 2],
                None => element@[k + 2] < 0,
            },
            _ => r is None,
        },
{
    if element.len() == 0 {
        return None;
    }
    let head: i32 = element[0];
    let stage: i64 = if head == codes.back {
        0
    } else if head == codes.front {
        1
    } else if head == codes.next {
        2
    } else if is_stage && element.len() >= 3 && element[1] == codes.array {
        element[2] as i64
    } else {
        return None;
    };
    let mut k: usize = 0;
    while element.len() >= 3 && k <= element.len() - 3
        invariant
            k <= element@.len(),
            stage_of(element@, codes, is_stage) == Some(stage as int),
            child_place(element@, child, codes.array, k as int) == child_place(
                element@,
                child,
                codes.array,
                0,
            ),
        decreases element@.len() - k,
    {
        if element[k] == child && element[k + 1] == codes.array {
            let index: i32 = element[k + 2];
            return if index >= 0 {
                Some((stage, index as usize))
            } else {
                None
            };
        }
        k = k + 1;
    }
    None
}

/// Which saves a load goes to.
#[derive(Debug, Clone, Copy, PartialEq, Eq, Structural)]
pub enum LoadKind {
    Normal,
    Quick,
    End,
    Inner,
}

/// What has to be set going for a wait that the engine's own forms carry out.
#[derive(Debug, Clone, Copy, PartialEq, Eq, Structural)]
pub enum WaitStart {
    MessageReveal,
    Message,
    Quake { key: bool },
    IntEvent { key: bool },
    AllEvent { key: bool },
    ObjectMovie { key: bool },
    Emote { key: bool },
}

/// What the host does next for a continuation.
#[derive(Debug, Clone, Copy, PartialEq, Eq, Structural)]
pub enum NativeStep {
    /// Nothing; the flag says whether the continuation has completed.
    Done(bool),
    /// Go back to the last selection; that completes the continuation.
    RestoreSelection,
    /// Load a save; that completes the continuation.
    Load { kind: LoadKind, index: u32 },
    /// Write the end save; that completes the continuation.
    SaveEnd,
    /// Ask for the save dialog; that completes the continuation.
    OpenSaveDialog,
    /// Open the dialog for posts; that completes the continuation.
    OpenTweetDialog,
    /// Go back to the place in the backlog; that completes the continuation.
    RestoreBacklog,
    /// Call the scene that follows a load; that completes the continuation.
    CallAfterLoad,
    /// Start the wipe after a load where `start` says so, of this type and
    /// duration. The continuation has completed when the wipe is done.
    LoadWipe { start: bool, wipe_type: i32, duration: i32 },
    /// Drive the opening or closing of one message window, or of all.
    WindowAnimation { opening: bool, all: bool, start: bool, skip: bool },
    /// End the shaking of the screen where `end` says so. The continuation has
    /// completed when the screen does not shake.
    Shake { end: bool },
    /// Execute the record's command where `start` says so. The continuation
    /// has completed when nothing is waited for.
    Command { start: bool },
    /// Set a wait going, then go on with `proceed`.
    Start(WaitStart),
    /// Go on with `proceed`.
    Proceed,
    /// The wait is cut short: end the wipe or the quake where the flags say
    /// so, then clear the wait. That completes the continuation.
    CutShort { wipe: bool, quake: bool },
    /// Ask whether the wait goes on, then call `conclude`.
    Poll,
}

/// What the player's choice goes to, where there is such a thing.
#[derive(Debug, Clone, Copy, PartialEq, Eq, Structural)]
pub enum Focus {
    Window(Option<ChildPlace>),
    Group(Option<ChildPlace>),
}

/// A step, whether the host takes a decide or cancel key out of its input, the
/// number that goes to the script's stack, and where the focus is set.
#[derive(Debug, Clone, Copy, PartialEq, Eq, Structural)]
pub struct NativePoll {
    pub step: NativeStep,
    pub take_decide: bool,
    pub push: Option<i32>,
    pub focus: Option<Focus>,
}

/// What the host knows when it polls a continuation.
#[derive(Debug, Clone, Copy)]
pub struct NativeFacts {
    /// The player is skipping.
    pub skipping: bool,
    /// The message window of the present selection, and whether it is there
    /// and has its selection open.
    pub sel_window: Option<ChildPlace>,
    pub window_selects: bool,
    /// A choice by buttons is open.
    pub buttons_select: bool,
    /// The group of buttons that the record's path names, and whether it is
    /// there, works and is waited for.
    pub sel_group: Option<ChildPlace>,
    pub group_selects: bool,
    /// The answer of a decide or cancel key that has been pressed.
    pub decide: Option<i32>,
    /// Game time, in the engine's 32 bits.
    pub game_time: i32,
    /// The counter that the record names.
    pub counter: Option<i32>,
    /// A place in the backlog is known.
    pub backlog_known: bool,
    /// The type and the duration of the wipe after a load.
    pub load_wipe: (i32, i32),
}

/// Whether the selection that a record waits for is still open.
pub open spec fn selection_active(kind: int, facts: NativeFacts) -> bool {
    if kind == 14 {
        facts.sel_window is Some && facts.window_selects
    } else if kind == 15 {
        facts.buttons_select
    } else if kind == 16 {
        facts.sel_group is Some && facts.group_selects
    } else {
        false
    }
}

/// Where the focus is set when a selection is taken up.
pub open spec fn focus_of(kind: int, started: bool, facts: NativeFacts) -> Option<Focus> {
    if started {
        None
    } else if kind == 14 {
        Some(Focus::Window(facts.sel_window))
    } else if kind == 16 {
        Some(Focus::Group(facts.sel_group))
    } else {
        None
    }
}

/// A step alone.
pub open spec fn poll(step: NativeStep) -> NativePoll {
    NativePoll { step, take_decide: false, push: None, focus: None }
}

/// Whether this record lets the player skip, and the player does.
pub open spec fn skips(p: NativeView, facts: NativeFacts) -> bool {
    !p.skip_disabled && facts.skipping
}

/// The third number of a path, or -1.
pub open spec fn path_index(element: Seq<i32>) -> int {
    if element.len() >= 3 {
        element[2] as int
    } else {
        -1
    }
}

pub open spec fn zero_result(p: NativeView) -> Option<i32> {
    if p.leaves_result {
        Some(0i32)
    } else {
        None
    }
}

/// Whether the time or the counter that a record waits for has come.
pub open spec fn timed_out(p: NativeView, facts: NativeFacts) -> bool {
    if p.kind == 20 {
        facts.game_time.wrapping_sub(p.option as i32) >= 0
    } else if p.kind == 21 {
        match facts.counter {
            Some(c) => c.wrapping_sub(p.option as i32) >= 0,
            None => true,
        }
    } else {
        false
    }
}

/// Whether a record is resumed by a step of its own, not by a wait.
pub open spec fn has_own_step(kind: int, started: bool) -> bool {
    ||| kind == 3
    ||| kind == 9
    ||| 14 <= kind <= 16
    ||| 18 <= kind <= 24
    ||| kind == 36
    ||| 48 <= kind <= 49
    ||| !started && (kind == 6 || kind == 7 || 41 <= kind <= 43 || kind == 47 || kind == 50)
}

/// The step of a record that has its own. `modal` and `result` are what the
/// wait held before.
pub open spec fn own_step(
    p: NativeView,
    started: bool,
    facts: NativeFacts,
    modal: bool,
    result: Option<i64>,
) -> Result<NativePoll, NativeError> {
    let skip = skips(p, facts);
    if p.kind == 9 {
        Ok(poll(NativeStep::RestoreSelection))
    } else if 14 <= p.kind <= 16 {
        if selection_active(p.kind, facts) || (started && modal) {
            Ok(
                NativePoll {
                    focus: focus_of(p.kind, started, facts),
                    ..poll(NativeStep::Done(false))
                },
            )
        } else {
            Ok(
                NativePoll {
                    focus: focus_of(p.kind, started, facts),
                    step: NativeStep::Done(true),
                    take_decide: false,
                    push: match result {
                        Some(v) => if started {
                            Some(v as i32)
                        } else {
                            None
                        },
                        None => None,
                    },
                },
            )
        }
    } else if p.kind == 6 || p.kind == 7 || p.kind == 42 || p.kind == 47 {
        if p.option < 0 {
            Err(NativeError::InvalidLoadIndex)
        } else {
            Ok(
                poll(
                    NativeStep::Load {
                        kind: if p.kind == 6 {
                            LoadKind::Normal
                        } else if p.kind == 7 {
                            LoadKind::Quick
                        } else if p.kind == 42 {
                            LoadKind::End
                        } else {
                            LoadKind::Inner
                        },
                        index: p.option as u32,
                    },
                ),
            )
        }
    } else if p.kind == 43 {
        Ok(poll(NativeStep::SaveEnd))
    } else if p.kind == 41 {
        Ok(poll(NativeStep::OpenSaveDialog))
    } else if p.kind == 50 {
        Ok(poll(NativeStep::OpenTweetDialog))
    } else if p.kind == 49 {
        if started {
            Ok(poll(NativeStep::Done(true)))
        } else if facts.backlog_known {
            Ok(poll(NativeStep::RestoreBacklog))
        } else {
            Err(NativeError::NoBacklogTarget)
        }
    } else if p.kind == 48 {
        if started {
            Ok(poll(NativeStep::CallAfterLoad))
        } else {
            Ok(poll(NativeStep::Done(false)))
        }
    } else if p.kind == 3 {
        Ok(
            poll(
                NativeStep::LoadWipe {
                    start: !started,
                    wipe_type: facts.load_wipe.0,
                    duration: facts.load_wipe.1,
                },
            ),
        )
    } else if 22 <= p.kind <= 24 {
        Ok(
            poll(
                NativeStep::WindowAnimation {
                    opening: p.kind == 22,
                    all: p.kind == 24,
                    start: !started,
                    skip,
                },
            ),
        )
    } else if p.kind == 36 {
        Ok(
            NativePoll {
                focus: None,
                step: NativeStep::Shake { end: skip || (p.key && facts.decide is Some) },
                take_decide: !skip && p.key,
                push: None,
            },
        )
    } else if p.kind == 18 {
        Ok(poll(NativeStep::Command { start: !started }))
    } else {
        let asks = p.kind == 19 || p.key;
        if timed_out(p, facts) || skip {
            Ok(
                NativePoll {
                    focus: None,
                    step: NativeStep::Done(true),
                    take_decide: false,
                    push: if p.kind != 19 && p.key {
                        Some(0i32)
                    } else {
                        None
                    },
                },
            )
        } else if asks && facts.decide is Some {
            Ok(
                NativePoll {
                    focus: None,
                    step: NativeStep::Done(true),
                    take_decide: true,
                    push: if p.kind != 19 {
                        facts.decide
                    } else {
                        None
                    },
                },
            )
        } else {
            Ok(NativePoll { step: NativeStep::Done(false), take_decide: asks, push: None, focus: None })
        }
    }
}

/// What a record without a step of its own waits for once it is started.
pub open spec fn start_target(p: NativeView) -> WaitTarget {
    if p.kind == 25 {
        WaitTarget::MessageReveal
    } else if p.kind == 27 {
        WaitTarget::Audio { sound: AudioWait::Bgm, key: false, result: p.leaves_result }
    } else if p.kind == 28 {
        WaitTarget::Audio { sound: AudioWait::BgmFade, key: false, result: p.leaves_result }
    } else if p.kind == 29 {
        WaitTarget::Audio { sound: AudioWait::KoeAny, key: false, result: p.leaves_result }
    } else if p.kind == 30 {
        WaitTarget::Audio { sound: AudioWait::PcmAny, key: false, result: p.leaves_result }
    } else if p.kind == 31 && 0 <= path_index(p.element) <= 255 {
        WaitTarget::Audio {
            sound: AudioWait::PcmSlot(path_index(p.element) as u8),
            key: false,
            result: p.leaves_result,
        }
    } else if p.kind == 32 && 0 <= path_index(p.element) <= 255 {
        WaitTarget::Audio {
            sound: AudioWait::PcmSlotFade(path_index(p.element) as u8),
            key: false,
            result: p.leaves_result,
        }
    } else if p.kind == 33 && p.element.len() > 0 && path_index(p.element) >= 0 {
        WaitTarget::PcmEvent {
            form: p.element[0] as u32,
            index: path_index(p.element) as u32,
            key: p.key,
            result: p.leaves_result,
        }
    } else if p.kind == 34 {
        WaitTarget::Movie { key: p.key, result: p.key }
    } else if p.kind == 35 {
        WaitTarget::Wipe { key: p.key }
    } else {
        WaitTarget::Nothing
    }
}

/// The step of a record without its own, when it is started.
pub open spec fn start_step(p: NativeView) -> Result<NativePoll, NativeError> {
    if p.kind == 25 {
        Ok(poll(NativeStep::Start(WaitStart::MessageReveal)))
    } else if p.kind == 26 {
        Ok(poll(NativeStep::Start(WaitStart::Message)))
    } else if 27 <= p.kind <= 30 || 34 <= p.kind <= 35 {
        Ok(poll(NativeStep::Proceed))
    } else if 31 <= p.kind <= 32 {
        if 0 <= path_index(p.element) <= 255 {
            Ok(poll(NativeStep::Proceed))
        } else {
            Ok(
                NativePoll {
                    focus: None,
                    step: NativeStep::Done(true),
                    take_decide: false,
                    push: zero_result(p),
                },
            )
        }
    } else if p.kind == 33 {
        if p.element.len() == 0 {
            Err(NativeError::MissingEventTarget)
        } else if path_index(p.element) < 0 {
            Ok(
                NativePoll {
                    focus: None,
                    step: NativeStep::Done(true),
                    take_decide: false,
                    push: zero_result(p),
                },
            )
        } else {
            Ok(poll(NativeStep::Proceed))
        }
    } else if p.kind == 37 {
        Ok(poll(NativeStep::Start(WaitStart::Quake { key: p.key })))
    } else if p.kind == 38 {
        Ok(poll(NativeStep::Start(WaitStart::IntEvent { key: p.key })))
    } else if p.kind == 39 {
        Ok(poll(NativeStep::Start(WaitStart::AllEvent { key: p.key })))
    } else if p.kind == 40 {
        Ok(poll(NativeStep::Start(WaitStart::ObjectMovie { key: p.key })))
    } else if p.kind == 51 {
        Ok(poll(NativeStep::Start(WaitStart::Emote { key: p.key })))
    } else {
        Err(NativeError::Unsupported(p.kind as i32))
    }
}

/// The first step of polling a continuation.
pub open spec fn first_step(
    p: NativeView,
    started: bool,
    facts: NativeFacts,
    modal: bool,
    result: Option<i64>,
) -> Result<NativePoll, NativeError> {
    if has_own_step(p.kind, started) {
        own_step(p, started, facts, modal, result)
    } else if started {
        Ok(NativePoll { step: NativeStep::Proceed, take_decide: false, push: None, focus: None })
    } else {
        start_step(p)
    }
}

/// What the first step of polling leaves in the wait.
pub open spec fn first_wait(
    p: NativeView,
    started: bool,
    facts: NativeFacts,
    before: VmWait,
    after: VmWait,
) -> bool {
    if 14 <= p.kind <= 16 {
        if started {
            &&& after.same_but_result(&before)
            &&& after.pending_value == (if selection_active(p.kind, facts) || before.system_modal {
                before.pending_value
            } else {
                None
            })
        } else {
            &&& after.system_modal == selection_active(p.kind, facts)
            &&& !after.waiting_for_key
            &&& after.target == WaitTarget::Nothing
            &&& after.pending_value is None
            &&& after.native_returns
            &&& !after.native_key
        }
    } else if has_own_step(p.kind, started) || started {
        after == before
    } else {
        &&& after.waiting_for_key == (p.kind == 26)
        &&& !after.system_modal
        &&& after.target == start_target(p)
        &&& after.pending_value is None
        &&& !after.native_returns
        &&& !after.native_key
    }
}

fn plain(step: NativeStep) -> (r: NativePoll)
    ensures
        r == poll(step),
{
    NativePoll { step, take_decide: false, push: None, focus: None }
}

fn done(push: Option<i32>) -> (r: NativePoll)
    ensures
        r == (NativePoll { step: NativeStep::Done(true), take_decide: false, push, focus: None }),
{
    NativePoll { step: NativeStep::Done(true), take_decide: false, push, focus: None }
}

/// Begins polling a continuation. `started` says whether it has been polled
/// before.
pub fn poll_native_proc(
    proc: &NativeRecord,
    started: bool,
    facts: NativeFacts,
    wait: &mut VmWait,
) -> (r: Result<NativePoll, NativeError>)
    ensures
        r == first_step(
            proc@,
            started,
            facts,
            old(wait).system_modal,
            match old(wait).pending_value {
                Some(v) => v.number(),
                None => None,
            },
        ),
        first_wait(proc@, started, facts, *old(wait), *final(wait)),
{
    let skip: bool = !proc.skip_disabled && facts.skipping;
    let kind: i32 = proc.kind;
    if 14 <= kind && kind <= 16 {
        let active: bool = if kind == 14 {
            facts.sel_window.is_some() && facts.window_selects
        } else if kind == 15 {
            facts.buttons_select
        } else {
            facts.sel_group.is_some() && facts.group_selects
        };
        let mut focus: Option<Focus> = None;
        if !started {
            wait.clear();
            wait.configure_native_return(true, false);
            if active {
                wait.wait_system_modal();
            }
            if kind == 14 {
                focus = Some(Focus::Window(facts.sel_window));
            }
            if kind == 16 {
                focus = Some(Focus::Group(facts.sel_group));
            }
        }
        if active || wait.system_modal {
            return Ok(NativePoll { focus, ..plain(NativeStep::Done(false)) });
        }
        let push: Option<i32> = match wait.take_native_result() {
            Some(v) => match v.as_i64() {
                Some(n) => Some(n as i32),
                None => None,
            },
            None => None,
        };
        return Ok(NativePoll { focus, ..done(push) });
    }
    if kind == 9 {
        return Ok(plain(NativeStep::RestoreSelection));
    }
    if !started && (kind == 6 || kind == 7 || kind == 42 || kind == 47) {
        if proc.option < 0 {
            return Err(NativeError::InvalidLoadIndex);
        }
        let load = if kind == 6 {
            LoadKind::Normal
        } else if kind == 7 {
            LoadKind::Quick
        } else if kind == 42 {
            LoadKind::End
        } else {
            LoadKind::Inner
        };
        return Ok(plain(NativeStep::Load { kind: load, index: proc.option as u32 }));
    }
    if !started && kind == 43 {
        return Ok(plain(NativeStep::SaveEnd));
    }
    if !started && kind == 41 {
        return Ok(plain(NativeStep::OpenSaveDialog));
    }
    if !started && kind == 50 {
        return Ok(plain(NativeStep::OpenTweetDialog));
    }
    if kind == 49 {
        if started {
            return Ok(done(None));
        }
        return if facts.backlog_known {
            Ok(plain(NativeStep::RestoreBacklog))
        } else {
            Err(NativeError::NoBacklogTarget)
        };
    }
    if kind == 48 {
        return if started {
            Ok(plain(NativeStep::CallAfterLoad))
        } else {
            Ok(plain(NativeStep::Done(false)))
        };
    }
    if kind == 3 {
        return Ok(
            plain(
                NativeStep::LoadWipe {
                    start: !started,
                    wipe_type: facts.load_wipe.0,
                    duration: facts.load_wipe.1,
                },
            ),
        );
    }
    if 22 <= kind && kind <= 24 {
        return Ok(
            plain(
                NativeStep::WindowAnimation {
                    opening: kind == 22,
                    all: kind == 24,
                    start: !started,
                    skip,
                },
            ),
        );
    }
    if kind == 36 {
        return Ok(
            NativePoll {
                focus: None,
                step: NativeStep::Shake { end: skip || (proc.key && facts.decide.is_some()) },
                take_decide: !skip && proc.key,
                push: None,
            },
        );
    }
    if kind == 18 {
        return Ok(plain(NativeStep::Command { start: !started }));
    }
    if 19 <= kind && kind <= 21 {
        return Ok(poll_timed(proc, skip, facts));
    }
    if started {
        return Ok(plain(NativeStep::Proceed));
    }
    start_wait(proc, wait)
}

fn poll_timed(proc: &NativeRecord, skip: bool, facts: NativeFacts) -> (r: NativePoll)
    requires
        19 <= proc.kind <= 21,
        skip == skips(proc@, facts),
    ensures
        own_step(proc@, true, facts, false, None) == Ok::<NativePoll, NativeError>(r),
        own_step(proc@, false, facts, false, None) == Ok::<NativePoll, NativeError>(r),
        forall|started: bool, modal: bool, result: Option<i64>| #[trigger]
            own_step(proc@, started, facts, modal, result) == Ok::<NativePoll, NativeError>(r),
{
    let out: bool = if proc.kind == 20 {
        facts.game_time.wrapping_sub(proc.option) >= 0
    } else if proc.kind == 21 {
        match facts.counter {
            Some(c) => c.wrapping_sub(proc.option) >= 0,
            None => true,
        }
    } else {
        false
    };
    let asks: bool = proc.kind == 19 || proc.key;
    if out || skip {
        return done(if proc.kind != 19 && proc.key {
            Some(0)
        } else {
            None
        });
    }
    if asks {
        if let Some(answer) = facts.decide {
            return NativePoll {
                focus: None,
                step: NativeStep::Done(true),
                take_decide: true,
                push: if proc.kind != 19 {
                    Some(answer)
                } else {
                    None
                },
            };
        }
    }
    NativePoll { step: NativeStep::Done(false), take_decide: asks, push: None, focus: None }
}

fn start_wait(proc: &NativeRecord, wait: &mut VmWait) -> (r: Result<NativePoll, NativeError>)
    requires
        !has_own_step(proc@.kind, false),
    ensures
        r == start_step(proc@),
        final(wait).waiting_for_key == (proc.kind == 26),
        !final(wait).system_modal,
        final(wait).target == start_target(proc@),
        final(wait).pending_value is None,
        !final(wait).native_returns,
        !final(wait).native_key,
{
    wait.clear();
    let kind: i32 = proc.kind;
    let index: i32 = if proc.element.len() >= 3 { proc.element[2] } else { -1 };
    let result: bool = proc.leaves_result;
    let none: Option<i32> = if result { Some(0) } else { None };
    if kind == 25 {
        wait.wait_for(WaitTarget::MessageReveal);
        Ok(plain(NativeStep::Start(WaitStart::MessageReveal)))
    } else if kind == 26 {
        wait.wait_key();
        Ok(plain(NativeStep::Start(WaitStart::Message)))
    } else if 27 <= kind && kind <= 30 {
        let sound = if kind == 27 {
            AudioWait::Bgm
        } else if kind == 28 {
            AudioWait::BgmFade
        } else if kind == 29 {
            AudioWait::KoeAny
        } else {
            AudioWait::PcmAny
        };
        wait.wait_for(WaitTarget::Audio { sound, key: false, result });
        Ok(plain(NativeStep::Proceed))
    } else if kind == 31 || kind == 32 {
        if index < 0 || index > 255 {
            return Ok(done(none));
        }
        let sound = if kind == 31 {
            AudioWait::PcmSlot(index as u8)
        } else {
            AudioWait::PcmSlotFade(index as u8)
        };
        wait.wait_for(WaitTarget::Audio { sound, key: false, result });
        Ok(plain(NativeStep::Proceed))
    } else if kind == 33 {
        if proc.element.len() == 0 {
            return Err(NativeError::MissingEventTarget);
        }
        if index < 0 {
            return Ok(done(none));
        }
        let form: u32 = proc.element[0] as u32;
        wait.wait_for(
            WaitTarget::PcmEvent { form, index: index as u32, key: proc.key, result },
        );
        Ok(plain(NativeStep::Proceed))
    } else if kind == 34 {
        wait.wait_for(WaitTarget::Movie { key: proc.key, result: proc.key });
        Ok(plain(NativeStep::Proceed))
    } else if kind == 35 {
        wait.wait_for(WaitTarget::Wipe { key: proc.key });
        Ok(plain(NativeStep::Proceed))
    } else if kind == 37 {
        Ok(plain(NativeStep::Start(WaitStart::Quake { key: proc.key })))
    } else if kind == 38 {
        Ok(plain(NativeStep::Start(WaitStart::IntEvent { key: proc.key })))
    } else if kind == 39 {
        Ok(plain(NativeStep::Start(WaitStart::AllEvent { key: proc.key })))
    } else if kind == 40 {
        Ok(plain(NativeStep::Start(WaitStart::ObjectMovie { key: proc.key })))
    } else if kind == 51 {
        Ok(plain(NativeStep::Start(WaitStart::Emote { key: proc.key })))
    } else {
        Err(NativeError::Unsupported(kind))
    }
}

/// The step after a wait has been set going, or after a continuation that had
/// been started is polled again.
pub open spec fn second_step(p: NativeView, facts: NativeFacts) -> NativePoll {
    if skips(p, facts) && (27 <= p.kind <= 33 || p.kind == 35 || p.kind == 37) {
        NativePoll {
            focus: None,
            step: NativeStep::CutShort { wipe: p.kind == 35, quake: p.kind == 37 },
            take_decide: false,
            push: zero_result(p),
        }
    } else if p.key && 27 <= p.kind <= 32 {
        if facts.decide is Some {
            NativePoll {
                focus: None,
                step: NativeStep::CutShort { wipe: false, quake: false },
                take_decide: true,
                push: if p.leaves_result {
                    Some(1i32)
                } else {
                    None
                },
            }
        } else {
            NativePoll { step: NativeStep::Poll, take_decide: true, push: None, focus: None }
        }
    } else {
        NativePoll { step: NativeStep::Poll, take_decide: false, push: None, focus: None }
    }
}

/// Goes on after a wait has been set going. `fresh` says whether it was set
/// going just now.
pub fn proceed(proc: &NativeRecord, fresh: bool, facts: NativeFacts, wait: &mut VmWait) -> (r:
    NativePoll)
    ensures
        r == second_step(proc@, facts),
        final(wait).target == old(wait).target,
        final(wait).waiting_for_key == old(wait).waiting_for_key,
        final(wait).system_modal == old(wait).system_modal,
        final(wait).pending_value == old(wait).pending_value,
        fresh && proc.kind != 26 ==> {
            &&& final(wait).native_returns == (proc.leaves_result || (proc.kind == 34 && proc.key))
            &&& final(wait).native_key == proc.key
        },
        !fresh || proc.kind == 26 ==> {
            &&& final(wait).native_returns == old(wait).native_returns
            &&& final(wait).native_key == old(wait).native_key
        },
{
    let kind: i32 = proc.kind;
    if fresh && kind != 26 {
        wait.configure_native_return(
            proc.leaves_result || (kind == 34 && proc.key),
            proc.key,
        );
    }
    let skip: bool = !proc.skip_disabled && facts.skipping;
    if skip && ((27 <= kind && kind <= 33) || kind == 35 || kind == 37) {
        return NativePoll {
            focus: None,
            step: NativeStep::CutShort { wipe: kind == 35, quake: kind == 37 },
            take_decide: false,
            push: if proc.leaves_result {
                Some(0)
            } else {
                None
            },
        };
    }
    if proc.key && 27 <= kind && kind <= 32 {
        return if facts.decide.is_some() {
            NativePoll {
                focus: None,
                step: NativeStep::CutShort { wipe: false, quake: false },
                take_decide: true,
                push: if proc.leaves_result {
                    Some(1)
                } else {
                    None
                },
            }
        } else {
            NativePoll { step: NativeStep::Poll, take_decide: true, push: None, focus: None }
        };
    }
    plain(NativeStep::Poll)
}

/// The number that a finished wait leaves for the script: the wait's own, or 0
/// where the record leaves a result and the wait produced none.
pub open spec fn final_result(p: NativeView, result: Option<Value>) -> Option<i32> {
    match result {
        Some(v) => if p.leaves_result || (p.kind == 34 && p.key) {
            match v.number() {
                Some(n) => Some(n as i32),
                None => None,
            }
        } else {
            None
        },
        None => zero_result(p),
    }
}

/// Ends the polling of a wait. `waiting` says whether the wait goes on.
pub fn conclude(proc: &NativeRecord, waiting: bool, wait: &mut VmWait) -> (r: NativePoll)
    ensures
        waiting ==> r == (NativePoll {
            focus: None,
            step: NativeStep::Done(false),
            take_decide: false,
            push: None,
        }) && *final(wait) == *old(wait),
        !waiting ==> {
            &&& r == (NativePoll {
                focus: None,
                step: NativeStep::Done(true),
                take_decide: false,
                push: final_result(proc@, old(wait).pending_value),
            })
            &&& final(wait).pending_value is None
            &&& final(wait).same_but_result(old(wait))
        },
{
    if waiting {
        return plain(NativeStep::Done(false));
    }
    let push: Option<i32> = match wait.take_native_result() {
        Some(v) => if proc.leaves_result || (proc.kind == 34 && proc.key) {
            match v.as_i64() {
                Some(n) => Some(n as i32),
                None => None,
            }
        } else {
            None
        },
        None => if proc.leaves_result {
            Some(0)
        } else {
            None
        },
    };
    done(push)
}

/// A continuation that has not completed leaves nothing on the script's stack.
pub proof fn unfinished_polls_push_nothing(
    p: NativeView,
    started: bool,
    facts: NativeFacts,
    modal: bool,
    result: Option<i64>,
)
    ensures
        first_step(p, started, facts, modal, result) matches Ok(r) ==> (r.step == NativeStep::Done(
            false,
        ) || r.step == NativeStep::Proceed ==> r.push is None),
        second_step(p, facts).step == NativeStep::Poll ==> second_step(p, facts).push is None,
{
}

/// Every kind of record that a save may hold either has a step, or is refused
/// as not supported, or lacks what it names.
pub proof fn every_resumable_kind_is_answered(p: NativeView, facts: NativeFacts)
    requires
        resumable(p.kind),
    ensures
        first_step(p, false, facts, false, None) matches Err(e) ==> {
            ||| e == NativeError::Unsupported(p.kind as i32) && (p.kind <= 2 || 4 <= p.kind <= 5
                || p.kind == 8 || p.kind == 17 || 44 <= p.kind <= 46)
            ||| e == NativeError::InvalidLoadIndex && p.option < 0
            ||| e == NativeError::NoBacklogTarget && p.kind == 49 && !facts.backlog_known
            ||| e == NativeError::MissingEventTarget && p.kind == 33 && p.element.len() == 0
        },
{
}

/// A wait for a time of the game goes on as long as that time lies ahead, and
/// is over from the moment it has come: no key is needed and none is asked for
/// unless the record says so. Once it is over it stays over as the game goes on.
pub proof fn time_waits_end_when_their_time_has_come(
    p: NativeView,
    started: bool,
    later_started: bool,
    facts: NativeFacts,
    later: NativeFacts,
    modal: bool,
    result: Option<i64>,
)
    requires
        p.kind == 20,
        i32::MIN <= p.option <= i32::MAX,
        p.skip_disabled || !facts.skipping,
        p.skip_disabled || !later.skipping,
        !p.key || (facts.decide is None && later.decide is None),
        -0x8000_0000 <= facts.game_time - p.option <= 0x7fff_ffff,
        -0x8000_0000 <= later.game_time - p.option <= 0x7fff_ffff,
        facts.game_time <= later.game_time,
    ensures
        ({
            let now = first_step(p, started, facts, modal, result);
            let then_step = first_step(p, later_started, later, modal, result);
            &&& facts.game_time < p.option ==> now == Ok::<NativePoll, NativeError>(
                NativePoll {
                    step: NativeStep::Done(false),
                    take_decide: p.key,
                    push: None,
                    focus: None,
                },
            )
            &&& facts.game_time >= p.option ==> now == Ok::<NativePoll, NativeError>(
                NativePoll {
                    step: NativeStep::Done(true),
                    take_decide: false,
                    push: if p.key {
                        Some(0i32)
                    } else {
                        None
                    },
                    focus: None,
                },
            )
            &&& facts.game_time >= p.option ==> then_step == now
            &&& then_step matches Ok(poll) && (poll.step == NativeStep::Done(true)
                <==> later.game_time >= p.option)
        }),
{
    assert(facts.game_time.wrapping_sub(p.option as i32) == facts.game_time - p.option);
    assert(later.game_time.wrapping_sub(p.option as i32) == later.game_time - p.option);
}

/// The clock of the engine goes round: a wait is over in the half of its turn
/// that begins at the time it waits for, and goes on in the other half.
pub proof fn time_waits_follow_the_clock_round(
    p: NativeView,
    started: bool,
    facts: NativeFacts,
    modal: bool,
    result: Option<i64>,
    passed: int,
)
    requires
        p.kind == 20,
        !p.key,
        p.skip_disabled || !facts.skipping,
        i32::MIN <= p.option <= i32::MAX,
        0 <= passed < 0x1_0000_0000,
        (facts.game_time - p.option - passed) % 0x1_0000_0000 == 0,
    ensures
        first_step(p, started, facts, modal, result) matches Ok(poll) && poll.step
            == NativeStep::Done(passed < 0x8000_0000),
{
}

/// A wait for a counter goes on as long as the counter lies below the record's
/// number, and is over once it has reached it, or where there is no counter.
pub proof fn counter_waits_end_at_their_number(
    p: NativeView,
    started: bool,
    facts: NativeFacts,
    modal: bool,
    result: Option<i64>,
)
    requires
        p.kind == 21,
        i32::MIN <= p.option <= i32::MAX,
        p.skip_disabled || !facts.skipping,
        !p.key || facts.decide is None,
        facts.counter matches Some(c) ==> -0x8000_0000 <= c - p.option <= 0x7fff_ffff,
    ensures
        first_step(p, started, facts, modal, result) matches Ok(poll) && {
            let reached = match facts.counter {
                Some(c) => c >= p.option,
                None => true,
            };
            &&& poll.step == NativeStep::Done(reached)
            &&& poll.push == (if reached && p.key {
                Some(0i32)
            } else {
                None
            })
            &&& poll.take_decide == (p.key && !reached)
        },
{
    if let Some(c) = facts.counter {
        assert(c.wrapping_sub(p.option as i32) == c - p.option);
    }
}

/// A key ends a wait that asks for keys, and its answer goes to the script
/// unless the wait is for a key alone. A wait that does not ask for keys leaves
/// them alone.
pub proof fn keys_end_the_waits_that_ask_for_them(
    p: NativeView,
    started: bool,
    facts: NativeFacts,
    modal: bool,
    result: Option<i64>,
    answer: i32,
)
    requires
        19 <= p.kind <= 21,
        i32::MIN <= p.option <= i32::MAX,
        p.skip_disabled || !facts.skipping,
        facts.decide == Some(answer),
        p.kind == 20 ==> p.option - 0x8000_0000 <= facts.game_time < p.option,
        p.kind == 21 ==> (facts.counter matches Some(c) && p.option - 0x8000_0000 <= c < p.option),
    ensures
        first_step(p, started, facts, modal, result) matches Ok(poll) && if p.kind == 19 {
            poll.step == NativeStep::Done(true) && poll.take_decide && poll.push is None
        } else if p.key {
            poll.step == NativeStep::Done(true) && poll.take_decide && poll.push == Some(answer)
        } else {
            poll.step == NativeStep::Done(false) && !poll.take_decide && poll.push is None
        },
        p.kind == 19 ==> (first_step(
            p,
            started,
            NativeFacts { decide: None, ..facts },
            modal,
            result,
        ) matches Ok(poll) && poll.step == NativeStep::Done(false)),
{
    if p.kind == 20 {
        assert(facts.game_time.wrapping_sub(p.option as i32) == facts.game_time - p.option);
    } else if p.kind == 21 {
        let c = facts.counter->0;
        assert(c.wrapping_sub(p.option as i32) == c - p.option);
    }
}

/// A player who skips ends every wait of a time, a counter or a key at once,
/// and every wait for a sound, a wipe or a quake. Where a record does not let
/// the player skip, it makes no difference whether the player does.
pub proof fn skipping_ends_what_may_be_skipped(
    p: NativeView,
    started: bool,
    facts: NativeFacts,
    modal: bool,
    result: Option<i64>,
)
    ensures
        !p.skip_disabled && facts.skipping && 19 <= p.kind <= 21 ==> (first_step(
            p,
            started,
            facts,
            modal,
            result,
        ) matches Ok(poll) && poll.step == NativeStep::Done(true) && !poll.take_decide && poll.push
            == (if p.key && p.kind > 19 {
            Some(0i32)
        } else {
            None
        })),
        !p.skip_disabled && facts.skipping && (27 <= p.kind <= 33 || p.kind == 35 || p.kind == 37)
            ==> second_step(p, facts) == (NativePoll {
            step: NativeStep::CutShort { wipe: p.kind == 35, quake: p.kind == 37 },
            take_decide: false,
            push: if p.leaves_result {
                Some(0i32)
            } else {
                None
            },
            focus: None,
        }),
        p.skip_disabled ==> {
            let other = NativeFacts { skipping: !facts.skipping, ..facts };
            &&& first_step(p, started, other, modal, result) == first_step(
                p,
                started,
                facts,
                modal,
                result,
            )
            &&& second_step(p, other) == second_step(p, facts)
        },
{
}

/// A key cuts a sound short that is waited for with keys, and leaves 1 where the
/// record wants a result; nothing else is cut short by a key, and a wait that is
/// not cut short is polled.
pub proof fn keys_cut_sounds_short(p: NativeView, facts: NativeFacts)
    requires
        p.skip_disabled || !facts.skipping,
    ensures
        ({
            let poll = second_step(p, facts);
            &&& p.key && 27 <= p.kind <= 32 && facts.decide is Some ==> poll.step
                == (NativeStep::CutShort { wipe: false, quake: false }) && poll.take_decide
                && poll.push == (if p.leaves_result {
                Some(1i32)
            } else {
                None
            })
            &&& !(p.key && 27 <= p.kind <= 32 && facts.decide is Some) ==> poll.step
                == NativeStep::Poll && poll.push is None
            &&& poll.take_decide <==> p.key && 27 <= p.kind <= 32
        }),
{
}

/// A selection that is open holds the script; one that is closed lets it go on,
/// with the number that was chosen where the selection had been taken up.
pub proof fn selections_hold_the_script(
    p: NativeView,
    started: bool,
    facts: NativeFacts,
    modal: bool,
    result: Option<i64>,
)
    requires
        14 <= p.kind <= 16,
    ensures
        first_step(p, started, facts, modal, result) matches Ok(poll) && {
            let open = (p.kind == 14 && facts.sel_window is Some && facts.window_selects)
                || (p.kind == 15 && facts.buttons_select) || (p.kind == 16 && facts.sel_group is Some
                && facts.group_selects);
            &&& poll.step == NativeStep::Done(!(open || (started && modal)))
            &&& !poll.take_decide
            &&& poll.push is Some ==> started && !open && !modal
            &&& started && !open && !modal ==> poll.push == (match result {
                Some(v) => Some(v as i32),
                None => None,
            })
            &&& poll.focus == (if started || p.kind == 15 {
                None
            } else if p.kind == 14 {
                Some(Focus::Window(facts.sel_window))
            } else {
                Some(Focus::Group(facts.sel_group))
            })
        },
{
}

/// Each kind of load goes to its own saves, at the number of the record, and a
/// load is asked for once.
pub proof fn loads_go_to_the_saves_of_their_kind(
    p: NativeView,
    facts: NativeFacts,
    modal: bool,
    result: Option<i64>,
    kind: LoadKind,
    index: u32,
)
    requires
        i32::MIN <= p.option <= i32::MAX,
        resumable(p.kind),
    ensures
        (first_step(p, false, facts, modal, result) matches Ok(poll) && poll.step
            == (NativeStep::Load { kind, index })) <==> {
            &&& p.option >= 0 && index == p.option
            &&& match kind {
                LoadKind::Normal => p.kind == 6,
                LoadKind::Quick => p.kind == 7,
                LoadKind::End => p.kind == 42,
                LoadKind::Inner => p.kind == 47,
            }
        },
        !(first_step(p, true, facts, modal, result) matches Ok(poll) && poll.step is Load),
{
}

/// The steps that only some records take, and what they are given.
pub proof fn special_steps_belong_to_their_records(
    p: NativeView,
    started: bool,
    facts: NativeFacts,
    modal: bool,
    result: Option<i64>,
)
    requires
        resumable(p.kind),
    ensures
        ({
            let step = first_step(p, started, facts, modal, result);
            let is = |s: NativeStep| step matches Ok(poll) && poll.step == s;
            let skip = facts.skipping && !p.skip_disabled;
            &&& is(NativeStep::RestoreSelection) <==> p.kind == 9
            &&& is(NativeStep::SaveEnd) <==> p.kind == 43 && !started
            &&& is(NativeStep::OpenSaveDialog) <==> p.kind == 41 && !started
            &&& is(NativeStep::OpenTweetDialog) <==> p.kind == 50 && !started
            &&& is(NativeStep::RestoreBacklog) <==> p.kind == 49 && !started && facts.backlog_known
            &&& is(NativeStep::CallAfterLoad) <==> p.kind == 48 && started
            &&& p.kind == 49 && started ==> is(NativeStep::Done(true))
            &&& p.kind == 48 && !started ==> is(NativeStep::Done(false))
            &&& p.kind == 3 ==> is(
                NativeStep::LoadWipe {
                    start: !started,
                    wipe_type: facts.load_wipe.0,
                    duration: facts.load_wipe.1,
                },
            )
            &&& p.kind == 18 ==> is(NativeStep::Command { start: !started })
            &&& p.kind == 36 ==> is(
                NativeStep::Shake { end: skip || (p.key && facts.decide is Some) },
            )
            &&& 22 <= p.kind <= 24 ==> is(
                NativeStep::WindowAnimation {
                    opening: p.kind == 22,
                    all: p.kind == 24,
                    start: !started,
                    skip,
                },
            )
        }),
{
}

/// What a wait that is set going waits for.
pub proof fn waits_are_for_what_the_record_names(p: NativeView, target: WaitTarget)
    requires
        target == start_target(p),
    ensures
        target == WaitTarget::MessageReveal <==> p.kind == 25,
        target matches WaitTarget::Wipe { key } ==> p.kind == 35 && key == p.key,
        target matches WaitTarget::Movie { key, result } ==> p.kind == 34 && key == p.key && result
            == p.key,
        target matches WaitTarget::PcmEvent { form, index, key, result } ==> p.kind == 33 && form
            == p.element[0] as u32 && index == p.element[2] && key == p.key && result
            == p.leaves_result,
        target matches WaitTarget::Audio { sound, key, result } ==> !key && result
            == p.leaves_result && match sound {
            AudioWait::Bgm => p.kind == 27,
            AudioWait::BgmFade => p.kind == 28,
            AudioWait::KoeAny => p.kind == 29,
            AudioWait::PcmAny => p.kind == 30,
            AudioWait::PcmSlot(slot) => p.kind == 31 && slot == p.element[2],
            AudioWait::PcmSlotFade(slot) => p.kind == 32 && slot == p.element[2],
        },
        27 <= p.kind <= 30 || p.kind == 34 || p.kind == 35 ==> target != WaitTarget::Nothing,
        31 <= p.kind <= 32 && p.element.len() >= 3 && 0 <= p.element[2] <= 255 ==> target is Audio,
        p.kind == 33 && p.element.len() >= 3 && p.element[2] >= 0 ==> target is PcmEvent,
{
}

/// Waits on things that are not there are over at once, with 0 where the record
/// wants a result.
pub proof fn waits_on_nothing_are_over(p: NativeView, facts: NativeFacts)
    requires
        31 <= p.kind <= 33,
        p.kind == 33 ==> p.element.len() > 0,
        p.element.len() < 3 || p.element[2] < 0 || (p.kind < 33 && p.element[2] > 255),
    ensures
        first_step(p, false, facts, false, None) == Ok::<NativePoll, NativeError>(
            NativePoll {
                step: NativeStep::Done(true),
                take_decide: false,
                push: if p.leaves_result {
                    Some(0i32)
                } else {
                    None
                },
                focus: None,
            },
        ),
{
}

/// A finished wait leaves its own number where one is wanted, and 0 where the
/// record wants one and the wait has none; a movie that keys may end leaves its
/// number too.
pub proof fn finished_waits_leave_their_number(p: NativeView, n: i64)
    ensures
        p.leaves_result || (p.kind == 34 && p.key) ==> final_result(p, Some(Value::Int(n)))
            == Some(n as i32),
        !p.leaves_result && !(p.kind == 34 && p.key) ==> final_result(p, Some(Value::Int(n)))
            is None,
        final_result(p, None) == (if p.leaves_result {
            Some(0i32)
        } else {
            None
        }),
{
}

/// Whether a place in the backlog is given.
pub open spec fn is_place(words: Seq<u16>) -> bool {
    exists|i: int| 0 <= i < words.len() && #[trigger] words[i] != 0
}

/// The place in the backlog that a load goes back to: the one that was asked
/// for, or else the last one that was picked, where there is one.
pub fn backlog_target(asked: Option<[u16; 7]>, picked: [u16; 7]) -> (r: Option<[u16; 7]>)
    ensures
        match asked {
            Some(place) => r == Some(place),
            None => r == (if is_place(picked@) {
                Some(picked)
            } else {
                None
            }),
        },
{
    if let Some(place) = asked {
        return Some(place);
    }
    let mut i: usize = 0;
    while i < 7
        invariant
            i <= 7,
            asked is None,
            forall|k: int| 0 <= k < i ==> #[trigger] picked@[k] == 0,
        decreases 7 - i,
    {
        if picked[i] != 0 {
            proof {
                assert(picked@[i as int] != 0);
            }
            return Some(picked);
        }
        i = i + 1;
    }
    None
}

/// What the player is told where a save cannot be resumed.
pub fn unavailable_load_text(reason: &str) -> (s: String)
    ensures
        s@ == "This save cannot be resumed safely.\n"@ + reason@
            + "\nThe current game state has been kept."@,
{
    let mut s = "This save cannot be resumed safely.\n".to_owned();
    s.append(reason);
    s.append("\nThe current game state has been kept.");
    s
}

/// A typed argument of a record.
#[derive(Debug)]
pub struct PropCell {
    pub form: i32,
    pub int_value: i32,
    pub str_value: String,
    pub int_list: Vec<i32>,
    pub str_list: Vec<String>,
    pub list_items: Vec<PropCell>,
    pub element: Vec<i32>,
}

/// The numbers of the argument types.
#[derive(Debug, Clone, Copy)]
pub struct FormNumbers {
    pub fm_int: i32,
    pub fm_str: i32,
    pub fm_intlist: i32,
    pub fm_strlist: i32,
    pub fm_list: i32,
}

/// Whether `v` is the script value of an argument.
pub open spec fn arg_stands_for(cell: PropCell, forms: FormNumbers, v: Value) -> bool
    decreases cell,
{
    if cell.form == forms.fm_int {
        v == Value::Int(cell.int_value as i64)
    } else if cell.form == forms.fm_str {
        v matches Value::Str(s) && s@ == cell.str_value@
    } else if cell.form == forms.fm_intlist {
        v matches Value::List(items) && items@ == Seq::new(
            cell.int_list@.len(),
            |i: int| Value::Int(cell.int_list@[i] as i64),
        )
    } else if cell.form == forms.fm_strlist {
        v matches Value::List(items) && items@.len() == cell.str_list@.len() && forall|i: int|
            0 <= i < items@.len() ==> (#[trigger] items@[i] matches Value::Str(s) && s@
                == cell.str_list@[i]@)
    } else if cell.form == forms.fm_list {
        v matches Value::List(items) && args_stand_for(cell.list_items@, forms, items@)
    } else {
        v matches Value::Element(e) && e@ == cell.element@
    }
}

pub open spec fn args_stand_for(cells: Seq<PropCell>, forms: FormNumbers, items: Seq<Value>) -> bool
    decreases cells,
{
    &&& cells.len() == items.len()
    &&& forall|i: int|
        0 <= i < cells.len() ==> arg_stands_for(cells[i], forms, #[trigger] items[i])
}

/// The script value of an argument.
pub fn native_proc_arg(cell: &PropCell, forms: FormNumbers) -> (v: Value)
    ensures
        arg_stands_for(*cell, forms, v),
    decreases cell,
{
    if cell.form == forms.fm_int {
        Value::Int(cell.int_value as i64)
    } else if cell.form == forms.fm_str {
        Value::Str(cell.str_value.clone())
    } else if cell.form == forms.fm_intlist {
        let mut items: Vec<Value> = Vec::new();
        let mut i: usize = 0;
        while i < cell.int_list.len()
            invariant
                i <= cell.int_list@.len(),
                items@.len() == i,
                forall|k: int|
                    0 <= k < i ==> #[trigger] items@[k] == Value::Int(cell.int_list@[k] as i64),
            decreases cell.int_list@.len() - i,
        {
            items.push(Value::Int(cell.int_list[i] as i64));
            i = i + 1;
        }
        proof {
            assert(items@ =~= Seq::new(
                cell.int_list@.len(),
                |i: int| Value::Int(cell.int_list@[i] as i64),
            ));
        }
        Value::List(items)
    } else if cell.form == forms.fm_strlist {
        let mut items: Vec<Value> = Vec::new();
        let mut i: usize = 0;
        while i < cell.str_list.len()
            invariant
                i <= cell.str_list@.len(),
                items@.len() == i,
                forall|k: int|
                    0 <= k < i ==> (#[trigger] items@[k] matches Value::Str(s) && s@
                        == cell.str_list@[k]@),
            decreases cell.str_list@.len() - i,
        {
            items.push(Value::Str(cell.str_list[i].clone()));
            i = i + 1;
        }
        Value::List(items)
    } else if cell.form == forms.fm_list {
        let mut items: Vec<Value> = Vec::new();
        let mut i: usize = 0;
        while i < cell.list_items.len()
            invariant
                i <= cell.list_items@.len(),
                items@.len() == i,
                forall|k: int|
                    0 <= k < i ==> arg_stands_for(
                        cell.list_items@[k],
                        forms,
                        #[trigger] items@[k],
                    ),
            decreases cell.list_items@.len() - i,
        {
            let item = native_proc_arg(&cell.list_items[i], forms);
            items.push(item);
            i = i + 1;
        }
        Value::List(items)
    } else {
        Value::Element(vstd::slice::slice_to_vec(cell.element.as_slice()))
    }
}

} // verus!
