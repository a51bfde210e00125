//! What the host has to resume after a load: the stack of its procedures, a
//! system command that has been asked for, and the waits of suspended scripts.
//! It is taken at the script's savepoint, not when the save file is written
//! later.

use vstd::prelude::*;
use crate::bytes;
use crate::bytes::{low_word, low_word_of_len, push_i32, push_u32, read_i32};
use crate::runtime::stream;
use crate::runtime::stream::{push_bool, push_raw, push_str, StreamError, StreamReader};
use crate::runtime::wait;
use crate::runtime::wait::{read_save_extension, VmWait, WaitError};
use crate::text;

verus! {

#[derive(Debug, Clone, Copy, PartialEq, Eq, Structural)]
pub enum ProcType {
    Script,
    Disp,
    GameEndWipe,
    GameTimerStart,
    ReturnToMenu,
    MsgBack,
    TimeWait,
    EndGame,
    StartWarning,
    /// A state of the host alone, outside the engine's own numbers.
    SyscomWarning,
    /// A procedure that is kept as the engine's own record.
    Native,
}

/// Why saved host state cannot be read.
#[derive(Debug, Clone, Copy, PartialEq, Eq, Structural)]
pub enum FlowError {
    Stream(StreamError),
    UnsupportedVersion,
    InvalidCount,
    UnknownProc,
    InvalidNativeSize,
    TruncatedNative,
    MissingNative,
    UnknownPending,
    InvalidDepth,
    Wait(WaitError),
}

/// The number under which a procedure is saved.
pub open spec fn proc_code(ty: ProcType) -> int {
    match ty {
        ProcType::Script => 1,
        ProcType::Disp => 2,
        ProcType::GameEndWipe => 4,
        ProcType::GameTimerStart => 5,
        ProcType::ReturnToMenu => 8,
        ProcType::MsgBack => 17,
        ProcType::TimeWait => 20,
        ProcType::EndGame => 44,
        ProcType::StartWarning => 45,
        ProcType::SyscomWarning => 0x100,
        ProcType::Native => 0x101,
    }
}

/// The procedure that is saved under a number.
pub open spec fn proc_of(v: int) -> Option<ProcType> {
    if v == 1 {
        Some(ProcType::Script)
    } else if v == 2 {
        Some(ProcType::Disp)
    } else if v == 4 {
        Some(ProcType::GameEndWipe)
    } else if v == 5 {
        Some(ProcType::GameTimerStart)
    } else if v == 8 {
        Some(ProcType::ReturnToMenu)
    } else if v == 17 {
        Some(ProcType::MsgBack)
    } else if v == 20 {
        Some(ProcType::TimeWait)
    } else if v == 44 {
        Some(ProcType::EndGame)
    } else if v == 45 {
        Some(ProcType::StartWarning)
    } else if v == 0x100 {
        Some(ProcType::SyscomWarning)
    } else if v == 0x101 {
        Some(ProcType::Native)
    } else {
        None
    }
}

impl ProcType {
    pub fn code(self) -> (v: i32)
        ensures
            v == proc_code(self),
    {
        match self {
            ProcType::Script => 1,
            ProcType::Disp => 2,
            ProcType::GameEndWipe => 4,
            ProcType::GameTimerStart => 5,
            ProcType::ReturnToMenu => 8,
            ProcType::MsgBack => 17,
            ProcType::TimeWait => 20,
            ProcType::EndGame => 44,
            ProcType::StartWarning => 45,
            ProcType::SyscomWarning => 0x100,
            ProcType::Native => 0x101,
        }
    }

    pub fn read(value: i32) -> (r: Result<ProcType, FlowError>)
        ensures
            match r {
                Ok(ty) => proc_of(value as int) == Some(ty),
                Err(e) => proc_of(value as int) is None && e == FlowError::UnknownProc,
            },
    {
        if value == 1 {
            Ok(ProcType::Script)
        } else if value == 2 {
            Ok(ProcType::Disp)
        } else if value == 4 {
            Ok(ProcType::GameEndWipe)
        } else if value == 5 {
            Ok(ProcType::GameTimerStart)
        } else if value == 8 {
            Ok(ProcType::ReturnToMenu)
        } else if value == 17 {
            Ok(ProcType::MsgBack)
        } else if value == 20 {
            Ok(ProcType::TimeWait)
        } else if value == 44 {
            Ok(ProcType::EndGame)
        } else if value == 45 {
            Ok(ProcType::StartWarning)
        } else if value == 0x100 {
            Ok(ProcType::SyscomWarning)
        } else if value == 0x101 {
            Ok(ProcType::Native)
        } else {
            Err(FlowError::UnknownProc)
        }
    }
}

/// The number of a procedure is read back as that procedure.
pub proof fn proc_code_round_trip(ty: ProcType)
    ensures
        proc_of(proc_code(ty)) == Some(ty),
{
}

#[derive(Debug, Clone, Copy, PartialEq, Eq, Structural)]
pub enum SyscomPendingProcKind {
    EndGame,
    ReturnToSel,
    ReturnToMenu,
    Save,
    Load,
    QuickSave,
    QuickLoad,
    BacklogLoad,
    MsgBack,
    OpenSyscomMenu,
    OpenSave,
    OpenLoad,
    OpenConfig,
}

pub open spec fn pending_code(kind: SyscomPendingProcKind) -> int {
    match kind {
        SyscomPendingProcKind::EndGame => 0,
        SyscomPendingProcKind::ReturnToSel => 1,
        SyscomPendingProcKind::ReturnToMenu => 2,
        SyscomPendingProcKind::Save => 3,
        SyscomPendingProcKind::Load => 4,
        SyscomPendingProcKind::QuickSave => 5,
        SyscomPendingProcKind::QuickLoad => 6,
        SyscomPendingProcKind::BacklogLoad => 7,
        SyscomPendingProcKind::MsgBack => 8,
        SyscomPendingProcKind::OpenSyscomMenu => 9,
        SyscomPendingProcKind::OpenSave => 10,
        SyscomPendingProcKind::OpenLoad => 11,
        SyscomPendingProcKind::OpenConfig => 12,
    }
}

pub open spec fn pending_kind_of(v: int) -> Option<SyscomPendingProcKind> {
    if v == 0 {
        Some(SyscomPendingProcKind::EndGame)
    } else if v == 1 {
        Some(SyscomPendingProcKind::ReturnToSel)
    } else if v == 2 {
        Some(SyscomPendingProcKind::ReturnToMenu)
    } else if v == 3 {
        Some(SyscomPendingProcKind::Save)
    } else if v == 4 {
        Some(SyscomPendingProcKind::Load)
    } else if v == 5 {
        Some(SyscomPendingProcKind::QuickSave)
    } else if v == 6 {
        Some(SyscomPendingProcKind::QuickLoad)
    } else if v == 7 {
        Some(SyscomPendingProcKind::BacklogLoad)
    } else if v == 8 {
        Some(SyscomPendingProcKind::MsgBack)
    } else if v == 9 {
        Some(SyscomPendingProcKind::OpenSyscomMenu)
    } else if v == 10 {
        Some(SyscomPendingProcKind::OpenSave)
    } else if v == 11 {
        Some(SyscomPendingProcKind::OpenLoad)
    } else if v == 12 {
        Some(SyscomPendingProcKind::OpenConfig)
    } else {
        None
    }
}

impl SyscomPendingProcKind {
    pub fn code(self) -> (v: i32)
        ensures
            v == pending_code(self),
    {
        match self {
            SyscomPendingProcKind::EndGame => 0,
            SyscomPendingProcKind::ReturnToSel => 1,
            SyscomPendingProcKind::ReturnToMenu => 2,
            SyscomPendingProcKind::Save => 3,
            SyscomPendingProcKind::Load => 4,
            SyscomPendingProcKind::QuickSave => 5,
            SyscomPendingProcKind::QuickLoad => 6,
            SyscomPendingProcKind::BacklogLoad => 7,
            SyscomPendingProcKind::MsgBack => 8,
            SyscomPendingProcKind::OpenSyscomMenu => 9,
            SyscomPendingProcKind::OpenSave => 10,
            SyscomPendingProcKind::OpenLoad => 11,
            SyscomPendingProcKind::OpenConfig => 12,
        }
    }

    pub fn read(v: i32) -> (r: Result<SyscomPendingProcKind, FlowError>)
        ensures
            match r {
                Ok(kind) => pending_kind_of(v as int) == Some(kind),
                Err(e) => pending_kind_of(v as int) is None && e == FlowError::UnknownPending,
            },
    {
        if v == 0 {
            Ok(SyscomPendingProcKind::EndGame)
        } else if v == 1 {
            Ok(SyscomPendingProcKind::ReturnToSel)
        } else if v == 2 {
            Ok(SyscomPendingProcKind::ReturnToMenu)
        } else if v == 3 {
            Ok(SyscomPendingProcKind::Save)
        } else if v == 4 {
            Ok(SyscomPendingProcKind::Load)
        } else if v == 5 {
            Ok(SyscomPendingProcKind::QuickSave)
        } else if v == 6 {
            Ok(SyscomPendingProcKind::QuickLoad)
        } else if v == 7 {
            Ok(SyscomPendingProcKind::BacklogLoad)
        } else if v == 8 {
            Ok(SyscomPendingProcKind::MsgBack)
        } else if v == 9 {
            Ok(SyscomPendingProcKind::OpenSyscomMenu)
        } else if v == 10 {
            Ok(SyscomPendingProcKind::OpenSave)
        } else if v == 11 {
            Ok(SyscomPendingProcKind::OpenLoad)
        } else if v == 12 {
            Ok(SyscomPendingProcKind::OpenConfig)
        } else {
            Err(FlowError::UnknownPending)
        }
    }
}

/// A system command that has been asked for and not yet carried out.
#[derive(Debug, Clone)]
pub struct SyscomPendingProc {
    pub kind: SyscomPendingProcKind,
    pub warning: bool,
    pub se_play: bool,
    pub fade_out: bool,
    pub leave_msgbk: bool,
    pub save_id: i64,
    /// The date and time of the saved place: seven numbers.
    pub save_tid: Option<[u16; 7]>,
}

#[derive(Debug, Clone)]
pub struct ProcFrame {
    pub ty: ProcType,
    pub option: i32,
    pub deadline_frame: Option<u32>,
    /// The engine's own record of the procedure, with its arguments. Keeping
    /// it as it is preserves what the host itself has no use for.
    pub native_record: Vec<u8>,
    pub native_started: bool,
}

/// A procedure as a save keeps it. The deadline is relative to the frame at
/// which the state was taken.
#[verifier::ext_equal]
pub struct SavedFrame {
    pub ty: ProcType,
    pub option: int,
    pub deadline: Option<int>,
    pub record: Seq<u8>,
    pub started: bool,
}

#[verifier::ext_equal]
pub struct SavedPending {
    pub kind: SyscomPendingProcKind,
    pub warning: bool,
    pub se_play: bool,
    pub fade_out: bool,
    pub leave_msgbk: bool,
    pub save_id: i64,
    pub save_tid: Option<Seq<u16>>,
}

#[verifier::ext_equal]
pub struct SavedSuspension {
    pub depth: int,
    pub wait: wait::SavedWait,
    pub key: Seq<char>,
}

/// Everything that a save keeps of the host's state.
#[verifier::ext_equal]
pub struct SavedFlow {
    pub booted_menu: bool,
    pub stack: Seq<SavedFrame>,
    pub pending: Option<SavedPending>,
    pub waits: Seq<SavedSuspension>,
}

/// `a - b`, but not below zero.
pub open spec fn minus(a: int, b: int) -> int {
    if a >= b {
        a - b
    } else {
        0
    }
}

/// `a + b`, but not above the largest frame number.
pub open spec fn plus(a: int, b: int) -> int {
    if a + b <= u32::MAX {
        a + b
    } else {
        u32::MAX as int
    }
}

/// `deadline`, seen from frame `from`, as a deadline seen from frame `to`.
pub open spec fn moved(deadline: int, from: int, to: int) -> int {
    plus(to, minus(deadline, from))
}

impl ProcFrame {
    pub open spec fn saved(&self, host_frame: int) -> SavedFrame {
        SavedFrame {
            ty: self.ty,
            option: self.option as int,
            deadline: match self.deadline_frame {
                Some(d) => Some(minus(d as int, host_frame)),
                None => None,
            },
            record: self.native_record@,
            started: self.native_started,
        }
    }

    /// Whether this procedure is the saved one, brought to frame `now`.
    pub open spec fn restores(&self, f: SavedFrame, now: int) -> bool {
        &&& self.ty == f.ty
        &&& self.option == f.option
        &&& match (self.deadline_frame, f.deadline) {
            (Some(d), Some(delta)) => d == plus(now, delta),
            (None, None) => true,
            _ => false,
        }
        &&& self.native_record@ == f.record
        &&& self.native_started == f.started
    }
}

impl SyscomPendingProc {
    pub open spec fn saved(&self) -> SavedPending {
        SavedPending {
            kind: self.kind,
            warning: self.warning,
            se_play: self.se_play,
            fade_out: self.fade_out,
            leave_msgbk: self.leave_msgbk,
            save_id: self.save_id,
            save_tid: match self.save_tid {
                Some(t) => Some(t@),
                None => None,
            },
        }
    }
}

#[derive(Debug)]
pub struct ProcFlow {
    pub stack: Vec<ProcFrame>,
    pub booted_menu: bool,
    pub pending_syscom_proc: Option<SyscomPendingProc>,
}

impl Default for ProcFlow {
    fn default() -> (f: ProcFlow)
        ensures
            f.stack@.len() == 0,
            !f.booted_menu,
            f.pending_syscom_proc is None,
    {
        ProcFlow { stack: Vec::new(), booted_menu: false, pending_syscom_proc: None }
    }
}

impl ProcFlow {
    pub fn push(&mut self, ty: ProcType, option: i32)
        ensures
            final(self).stack@.len() == old(self).stack@.len() + 1,
            final(self).stack@.drop_last() == old(self).stack@,
            ({
                let top = final(self).stack@.last();
                &&& top.ty == ty
                &&& top.option == option
                &&& top.deadline_frame is None
                &&& top.native_record@.len() == 0
                &&& !top.native_started
            }),
            final(self).booted_menu == old(self).booted_menu,
            final(self).pending_syscom_proc == old(self).pending_syscom_proc,
    {
        self.stack.push(
            ProcFrame {
                ty,
                option,
                deadline_frame: None,
                native_record: Vec::new(),
                native_started: false,
            },
        );
        proof {
            assert(self.stack@.drop_last() =~= old(self).stack@);
        }
    }

    pub fn pop(&mut self)
        ensures
            final(self).stack@ == (if old(self).stack@.len() == 0 {
                old(self).stack@
            } else {
                old(self).stack@.drop_last()
            }),
            final(self).booted_menu == old(self).booted_menu,
            final(self).pending_syscom_proc == old(self).pending_syscom_proc,
    {
        let _top = self.stack.pop();
    }

    pub fn top(&self) -> (r: Option<&ProcFrame>)
        ensures
            match r {
                Some(f) => self.stack@.len() > 0 && *f == self.stack@.last(),
                None => self.stack@.len() == 0,
            },
    {
        if self.stack.len() == 0 {
            None
        } else {
            Some(&self.stack[self.stack.len() - 1])
        }
    }

    pub fn top_mut(&mut self) -> (r: Option<&mut ProcFrame>)
        ensures
            match r {
                Some(f) => {
                    &&& old(self).stack@.len() > 0
                    &&& *f == old(self).stack@.last()
                    &&& final(self).stack@ == old(self).stack@.update(
                        old(self).stack@.len() - 1,
                        *final(f),
                    )
                },
                None => old(self).stack@.len() == 0 && final(self).stack@ == old(self).stack@,
            },
            final(self).booted_menu == old(self).booted_menu,
            final(self).pending_syscom_proc == old(self).pending_syscom_proc,
    {
        let n: usize = self.stack.len();
        if n == 0 {
            None
        } else {
            Some(&mut self.stack[n - 1])
        }
    }
}

#[derive(Debug)]
pub struct HostFlowSnapshot {
    pub flow: ProcFlow,
    /// Waits of scripts below the running one: the depth of the procedure, the
    /// wait, and the scene.
    pub suspended_waits: Vec<(usize, VmWait, String)>,
    pub host_frame: u32,
}

impl Default for HostFlowSnapshot {
    fn default() -> (s: HostFlowSnapshot)
        ensures
            s.flow.stack@.len() == 0,
            !s.flow.booted_menu,
            s.flow.pending_syscom_proc is None,
            s.suspended_waits@.len() == 0,
            s.host_frame == 0,
    {
        HostFlowSnapshot {
            flow: ProcFlow::default(),
            suspended_waits: Vec::new(),
            host_frame: 0,
        }
    }
}

pub open spec fn opt_bytes(b: Option<Seq<u8>>) -> Seq<u8> {
    match b {
        Some(x) => stream::bool_bytes(true) + x,
        None => stream::bool_bytes(false),
    }
}

/// How a procedure is written.
pub open spec fn frame_bytes(f: SavedFrame) -> Seq<u8> {
    bytes::i32_le(proc_code(f.ty)) + (bytes::i32_le(f.option) + (opt_bytes(
        match f.deadline {
            Some(d) => Some(bytes::u32_le(d)),
            None => None,
        },
    ) + (bytes::u32_le(f.record.len() as int % 0x1_0000_0000) + (f.record + stream::bool_bytes(
        f.started,
    )))))
}

pub open spec fn frames_bytes(s: Seq<SavedFrame>) -> Seq<u8>
    decreases s.len(),
{
    if s.len() == 0 {
        Seq::empty()
    } else {
        frames_bytes(s.drop_last()) + frame_bytes(s.last())
    }
}

pub open spec fn tid_bytes(t: Seq<u16>) -> Seq<u8>
    decreases t.len(),
{
    if t.len() == 0 {
        Seq::empty()
    } else {
        tid_bytes(t.drop_last()) + bytes::u32_le(t.last() as int)
    }
}

/// The high word of a save number.
pub open spec fn high_word(v: int) -> int {
    v / 0x1_0000_0000 % 0x1_0000_0000
}

pub open spec fn pending_bytes(p: SavedPending) -> Seq<u8> {
    bytes::i32_le(pending_code(p.kind)) + (stream::bool_bytes(p.warning) + (stream::bool_bytes(
        p.se_play,
    ) + (stream::bool_bytes(p.fade_out) + (stream::bool_bytes(p.leave_msgbk) + (bytes::u32_le(
        p.save_id as int % 0x1_0000_0000,
    ) + (bytes::u32_le(high_word(p.save_id as int)) + opt_bytes(
        match p.save_tid {
            Some(t) => Some(tid_bytes(t)),
            None => None,
        },
    )))))))
}

pub open spec fn suspension_bytes(s: SavedSuspension) -> Seq<u8> {
    bytes::u32_le(s.depth % 0x1_0000_0000) + (stream::string_bytes(s.key) + wait::wait_bytes(
        s.wait,
    ))
}

pub open spec fn suspensions_bytes(s: Seq<SavedSuspension>) -> Seq<u8>
    decreases s.len(),
{
    if s.len() == 0 {
        Seq::empty()
    } else {
        suspensions_bytes(s.drop_last()) + suspension_bytes(s.last())
    }
}

/// Marks the beginning of the host's state in a save: the letters `SGPF`.
pub const FLOW_MARK: u32 = 0x46504753;

/// The version that is written. Since version 2 a procedure keeps its record,
/// and since version 3 a system command keeps the place it goes back to.
pub const FLOW_VERSION: u32 = 3;

/// How the host's state is written.
pub open spec fn flow_bytes(s: SavedFlow) -> Seq<u8> {
    bytes::u32_le(FLOW_MARK as int) + (bytes::u32_le(FLOW_VERSION as int) + (stream::bool_bytes(
        s.booted_menu,
    ) + (bytes::u32_le(s.stack.len() as int % 0x1_0000_0000) + (frames_bytes(s.stack) + (opt_bytes(
        match s.pending {
            Some(p) => Some(pending_bytes(p)),
            None => None,
        },
    ) + (bytes::u32_le(s.waits.len() as int % 0x1_0000_0000) + suspensions_bytes(s.waits)))))))
}

pub type FlowParsed<T> = Result<(T, Seq<u8>), FlowError>;

pub open spec fn lift<T>(p: stream::Parsed<T>) -> FlowParsed<T> {
    match p {
        Ok(v) => Ok(v),
        Err(e) => Err(FlowError::Stream(e)),
    }
}

/// A count of saved items, at most 4096.
pub open spec fn count_of(b: Seq<u8>) -> FlowParsed<int> {
    match stream::i32_of(b) {
        Err(e) => Err(FlowError::Stream(e)),
        Ok((n, rest)) => if 0 <= n <= 4096 {
            Ok((n, rest))
        } else {
            Err(FlowError::InvalidCount)
        },
    }
}

pub open spec fn deadline_of(b: Seq<u8>) -> FlowParsed<Option<int>> {
    match stream::bool_of(b) {
        Err(e) => Err(FlowError::Stream(e)),
        Ok((has, b1)) => if has {
            match stream::u32_of(b1) {
                Err(e) => Err(FlowError::Stream(e)),
                Ok((d, b2)) => Ok((Some(d), b2)),
            }
        } else {
            Ok((None, b1))
        },
    }
}

/// A procedure's own record and whether it had been started.
pub open spec fn record_of(b: Seq<u8>, version: int) -> FlowParsed<(Seq<u8>, bool)> {
    if version < 2 {
        Ok(((Seq::empty(), false), b))
    } else {
        match stream::i32_of(b) {
            Err(e) => Err(FlowError::Stream(e)),
            Ok((size, b1)) => if size < 0 || size > 1_048_576 {
                Err(FlowError::InvalidNativeSize)
            } else {
                match stream::raw_of(b1, size) {
                    Err(e) => Err(FlowError::Stream(e)),
                    Ok((record, b2)) => match stream::bool_of(b2) {
                        Err(e) => Err(FlowError::Stream(e)),
                        Ok((started, b3)) => Ok(((record, started), b3)),
                    },
                }
            },
        }
    }
}

/// Whether a record is that of a window animation, which begins anew after a
/// load because windows are built again.
pub open spec fn rebuilt(ty: ProcType, record: Seq<u8>) -> bool {
    ty == ProcType::Native && 22 <= bytes::i32_at(record, 0) <= 24
}

pub open spec fn frame_of(b: Seq<u8>, version: int) -> FlowParsed<SavedFrame> {
    match stream::i32_of(b) {
        Err(e) => Err(FlowError::Stream(e)),
        Ok((code, b1)) => match proc_of(code) {
            None => Err(FlowError::UnknownProc),
            Some(ty) => match stream::i32_of(b1) {
                Err(e) => Err(FlowError::Stream(e)),
                Ok((option, b2)) => match deadline_of(b2) {
                    Err(e) => Err(e),
                    Ok((deadline, b3)) => match record_of(b3, version) {
                        Err(e) => Err(e),
                        Ok((r, b4)) => if r.0.len() != 0 && r.0.len() < 147 {
                            Err(FlowError::TruncatedNative)
                        } else if ty == ProcType::Native && r.0.len() == 0 {
                            Err(FlowError::MissingNative)
                        } else {
                            Ok(
                                (
                                    SavedFrame {
                                        ty,
                                        option,
                                        deadline,
                                        record: r.0,
                                        started: r.1 && !rebuilt(ty, r.0),
                                    },
                                    b4,
                                ),
                            )
                        },
                    },
                },
            },
        },
    }
}

pub open spec fn frames_of(b: Seq<u8>, n: int, version: int) -> FlowParsed<Seq<SavedFrame>>
    decreases n,
{
    if n <= 0 {
        Ok((Seq::empty(), b))
    } else {
        match frames_of(b, n - 1, version) {
            Err(e) => Err(e),
            Ok((head, b1)) => match frame_of(b1, version) {
                Err(e) => Err(e),
                Ok((f, b2)) => Ok((head.push(f), b2)),
            },
        }
    }
}

/// `n` numbers of a saved date, each moved into the range of 16 bits.
pub open spec fn tid_of(b: Seq<u8>, n: int) -> FlowParsed<Seq<u16>>
    decreases n,
{
    if n <= 0 {
        Ok((Seq::empty(), b))
    } else {
        match tid_of(b, n - 1) {
            Err(e) => Err(e),
            Ok((head, b1)) => match stream::i32_of(b1) {
                Err(e) => Err(FlowError::Stream(e)),
                Ok((v, b2)) => Ok(
                    (
                        head.push(
                            (if v < 0 {
                                0
                            } else if v > 65535 {
                                65535
                            } else {
                                v
                            }) as u16,
                        ),
                        b2,
                    ),
                ),
            },
        }
    }
}

pub open spec fn opt_tid_of(b: Seq<u8>, version: int) -> FlowParsed<Option<Seq<u16>>> {
    if version < 3 {
        Ok((None, b))
    } else {
        match stream::bool_of(b) {
            Err(e) => Err(FlowError::Stream(e)),
            Ok((has, b1)) => if has {
                match tid_of(b1, 7) {
                    Err(e) => Err(e),
                    Ok((t, b2)) => Ok((Some(t), b2)),
                }
            } else {
                Ok((None, b1))
            },
        }
    }
}

/// The four flags of a system command.
pub open spec fn flags_of(b: Seq<u8>) -> FlowParsed<(bool, bool, bool, bool)> {
    match stream::bool_of(b) {
        Err(e) => Err(FlowError::Stream(e)),
        Ok((f0, b1)) => match stream::bool_of(b1) {
            Err(e) => Err(FlowError::Stream(e)),
            Ok((f1, b2)) => match stream::bool_of(b2) {
                Err(e) => Err(FlowError::Stream(e)),
                Ok((f2, b3)) => match stream::bool_of(b3) {
                    Err(e) => Err(FlowError::Stream(e)),
                    Ok((f3, b4)) => Ok(((f0, f1, f2, f3), b4)),
                },
            },
        },
    }
}

/// A 64-bit save number in two words.
pub open spec fn save_id_of(b: Seq<u8>) -> FlowParsed<i64> {
    match stream::u32_of(b) {
        Err(e) => Err(FlowError::Stream(e)),
        Ok((low, b1)) => match stream::u32_of(b1) {
            Err(e) => Err(FlowError::Stream(e)),
            Ok((high, b2)) => Ok((wait::joined(low, high) as i64, b2)),
        },
    }
}

pub open spec fn pending_of(b: Seq<u8>, version: int) -> FlowParsed<SavedPending> {
    match stream::i32_of(b) {
        Err(e) => Err(FlowError::Stream(e)),
        Ok((code, b1)) => match pending_kind_of(code) {
            None => Err(FlowError::UnknownPending),
            Some(kind) => match flags_of(b1) {
                Err(e) => Err(e),
                Ok((f, b2)) => match save_id_of(b2) {
                    Err(e) => Err(e),
                    Ok((save_id, b3)) => match opt_tid_of(b3, version) {
                        Err(e) => Err(e),
                        Ok((save_tid, b4)) => Ok(
                            (
                                SavedPending {
                                    kind,
                                    warning: f.0,
                                    se_play: f.1,
                                    fade_out: f.2,
                                    leave_msgbk: f.3,
                                    save_id,
                                    save_tid,
                                },
                                b4,
                            ),
                        ),
                    },
                },
            },
        },
    }
}

pub open spec fn opt_pending_of(b: Seq<u8>, version: int) -> FlowParsed<Option<SavedPending>> {
    match stream::bool_of(b) {
        Err(e) => Err(FlowError::Stream(e)),
        Ok((has, b1)) => if has {
            match pending_of(b1, version) {
                Err(e) => Err(e),
                Ok((p, b2)) => Ok((Some(p), b2)),
            }
        } else {
            Ok((None, b1))
        },
    }
}

pub open spec fn suspension_of(b: Seq<u8>, frames: int) -> FlowParsed<SavedSuspension> {
    match stream::i32_of(b) {
        Err(e) => Err(FlowError::Stream(e)),
        Ok((depth, b1)) => if depth <= 0 || depth > frames {
            Err(FlowError::InvalidDepth)
        } else {
            match stream::string_of(b1) {
                Err(e) => Err(FlowError::Stream(e)),
                Ok((key, b2)) => match wait::wait_of(b2) {
                    Err(e) => Err(FlowError::Wait(e)),
                    Ok((w, b3)) => Ok((SavedSuspension { depth, wait: w, key }, b3)),
                },
            }
        },
    }
}

pub open spec fn suspensions_of(b: Seq<u8>, n: int, frames: int) -> FlowParsed<
    Seq<SavedSuspension>,
>
    decreases n,
{
    if n <= 0 {
        Ok((Seq::empty(), b))
    } else {
        match suspensions_of(b, n - 1, frames) {
            Err(e) => Err(e),
            Ok((head, b1)) => match suspension_of(b1, frames) {
                Err(e) => Err(e),
                Ok((s, b2)) => Ok((head.push(s), b2)),
            },
        }
    }
}

/// The host's state behind its mark and version.
pub open spec fn flow_body_of(b: Seq<u8>, version: int) -> FlowParsed<SavedFlow> {
    match stream::bool_of(b) {
        Err(e) => Err(FlowError::Stream(e)),
        Ok((booted_menu, b1)) => match count_of(b1) {
            Err(e) => Err(e),
            Ok((n, b2)) => match frames_of(b2, n, version) {
                Err(e) => Err(e),
                Ok((stack, b3)) => match opt_pending_of(b3, version) {
                    Err(e) => Err(e),
                    Ok((pending, b4)) => match count_of(b4) {
                        Err(e) => Err(e),
                        Ok((m, b5)) => match suspensions_of(b5, m, stack.len() as int) {
                            Err(e) => Err(e),
                            Ok((waits, b6)) => Ok(
                                (SavedFlow { booted_menu, stack, pending, waits }, b6),
                            ),
                        },
                    },
                },
            },
        },
    }
}

/// The host's state at the front of `b`, or `None` where `b` does not begin
/// with it.
pub open spec fn flow_of(b: Seq<u8>) -> Result<Option<(SavedFlow, Seq<u8>)>, FlowError> {
    match stream::u32_of(b) {
        Err(_) => Ok(None),
        Ok((mark, b1)) => if mark != FLOW_MARK {
            Ok(None)
        } else {
            match stream::i32_of(b1) {
                Err(e) => Err(FlowError::Stream(e)),
                Ok((version, b2)) => if version < 1 || version > 3 {
                    Err(FlowError::UnsupportedVersion)
                } else {
                    match flow_body_of(b2, version) {
                        Err(e) => Err(e),
                        Ok(p) => Ok(Some(p)),
                    }
                },
            }
        },
    }
}

impl HostFlowSnapshot {
    pub open spec fn saved(&self) -> SavedFlow {
        SavedFlow {
            booted_menu: self.flow.booted_menu,
            stack: saved_stack(self.flow.stack@, self.host_frame as int),
            pending: match self.flow.pending_syscom_proc {
                Some(p) => Some(p.saved()),
                None => None,
            },
            waits: saved_waits(self.suspended_waits@),
        }
    }

    /// Whether this state is the saved one, brought to frame `now`.
    pub open spec fn restores(&self, s: SavedFlow, now: int) -> bool {
        &&& self.host_frame == now
        &&& self.flow.booted_menu == s.booted_menu
        &&& restores_stack(self.flow.stack@, s.stack, now)
        &&& match (self.flow.pending_syscom_proc, s.pending) {
            (Some(p), Some(q)) => p.saved() == q,
            (None, None) => true,
            _ => false,
        }
        &&& saved_waits(self.suspended_waits@) == s.waits
    }

    /// Moves every deadline so that as much time is left at `frame` as was left
    /// at the frame before.
    pub fn rebase_host_frame(&mut self, frame: u32)
        ensures
            final(self).host_frame == frame,
            final(self).flow.stack@.len() == old(self).flow.stack@.len(),
            forall|i: int|
                #![trigger final(self).flow.stack@[i]]
                0 <= i < old(self).flow.stack@.len() ==> rebased(
                    old(self).flow.stack@[i],
                    final(self).flow.stack@[i],
                    old(self).host_frame as int,
                    frame as int,
                ),
            final(self).flow.booted_menu == old(self).flow.booted_menu,
            final(self).flow.pending_syscom_proc == old(self).flow.pending_syscom_proc,
            final(self).suspended_waits == old(self).suspended_waits,
    {
        let base: u32 = self.host_frame;
        let mut i: usize = 0;
        while i < self.flow.stack.len()
            invariant
                base == old(self).host_frame,
                self.host_frame == old(self).host_frame,
                i <= self.flow.stack@.len(),
                self.flow.stack@.len() == old(self).flow.stack@.len(),
                self.flow.booted_menu == old(self).flow.booted_menu,
                self.flow.pending_syscom_proc == old(self).flow.pending_syscom_proc,
                self.suspended_waits == old(self).suspended_waits,
                forall|k: int|
                    #![trigger self.flow.stack@[k]]
                    0 <= k < i ==> rebased(
                        old(self).flow.stack@[k],
                        self.flow.stack@[k],
                        base as int,
                        frame as int,
                    ),
                forall|k: int|
                    #![trigger self.flow.stack@[k]]
                    i <= k < self.flow.stack@.len() ==> self.flow.stack@[k]
                        == old(self).flow.stack@[k],
            decreases self.flow.stack@.len() - i,
        {
            let deadline: Option<u32> = match self.flow.stack[i].deadline_frame {
                Some(d) => Some(frame.saturating_add(d.saturating_sub(base))),
                None => None,
            };
            let entry = &mut self.flow.stack[i];
            entry.deadline_frame = deadline;
            i = i + 1;
        }
        self.host_frame = frame;
    }

    /// Appends this state to a save.
    pub fn write_extension(&self, out: &mut Vec<u8>)
        ensures
            final(out)@ == old(out)@ + flow_bytes(self.saved()),
    {
        push_u32(out, FLOW_MARK);
        push_u32(out, FLOW_VERSION);
        push_bool(out, self.flow.booted_menu);
        push_u32(out, low_word_of_len(self.flow.stack.len()));
        let ghost o4 = out@;
        self.write_stack(out);
        let ghost o5 = out@;
        write_opt_pending(out, &self.flow.pending_syscom_proc);
        let ghost o6 = out@;
        push_u32(out, low_word_of_len(self.suspended_waits.len()));
        self.write_waits(out);
        proof {
            let o = old(out)@;
            let s = self.saved();
            let p0 = bytes::u32_le(FLOW_MARK as int);
            let p1 = bytes::u32_le(FLOW_VERSION as int);
            let p2 = stream::bool_bytes(s.booted_menu);
            let p3 = bytes::u32_le(s.stack.len() as int % 0x1_0000_0000);
            let p4 = frames_bytes(s.stack);
            let p5 = opt_bytes(
                match s.pending {
                    Some(p) => Some(pending_bytes(p)),
                    None => None,
                },
            );
            let p6 = bytes::u32_le(s.waits.len() as int % 0x1_0000_0000);
            let p7 = suspensions_bytes(s.waits);
            stream::assoc(o6, p6, p7);
            stream::assoc(o5, p5, p6 + p7);
            stream::assoc(o4, p4, p5 + (p6 + p7));
            stream::assoc(((o + p0) + p1) + p2, p3, p4 + (p5 + (p6 + p7)));
            stream::assoc((o + p0) + p1, p2, p3 + (p4 + (p5 + (p6 + p7))));
            stream::assoc(o + p0, p1, p2 + (p3 + (p4 + (p5 + (p6 + p7)))));
            stream::assoc(o, p0, p1 + (p2 + (p3 + (p4 + (p5 + (p6 + p7))))));
        }
    }

    fn write_stack(&self, out: &mut Vec<u8>)
        ensures
            final(out)@ == old(out)@ + frames_bytes(self.saved().stack),
    {
        let ghost all = self.saved().stack;
        let mut i: usize = 0;
        proof {
            assert(all.take(0) =~= Seq::<SavedFrame>::empty());
            assert(out@ =~= old(out)@ + frames_bytes(all.take(0)));
        }
        while i < self.flow.stack.len()
            invariant
                all == self.saved().stack,
                i <= self.flow.stack@.len(),
                out@ == old(out)@ + frames_bytes(all.take(i as int)),
            decreases self.flow.stack@.len() - i,
        {
            write_frame(out, &self.flow.stack[i], self.host_frame);
            proof {
                assert(all.take(i + 1).drop_last() =~= all.take(i as int));
                assert(all.take(i + 1).last() == all[i as int]);
                stream::assoc(
                    old(out)@,
                    frames_bytes(all.take(i as int)),
                    frame_bytes(all[i as int]),
                );
            }
            i = i + 1;
        }
        proof {
            assert(all.take(i as int) =~= all);
        }
    }

    fn write_waits(&self, out: &mut Vec<u8>)
        ensures
            final(out)@ == old(out)@ + suspensions_bytes(self.saved().waits),
    {
        let ghost all = self.saved().waits;
        let mut i: usize = 0;
        proof {
            assert(all.take(0) =~= Seq::<SavedSuspension>::empty());
            assert(out@ =~= old(out)@ + suspensions_bytes(all.take(0)));
        }
        while i < self.suspended_waits.len()
            invariant
                all == self.saved().waits,
                i <= self.suspended_waits@.len(),
                out@ == old(out)@ + suspensions_bytes(all.take(i as int)),
            decreases self.suspended_waits@.len() - i,
        {
            let ghost o = out@;
            let entry = &self.suspended_waits[i];
            push_u32(out, low_word_of_len(entry.0));
            push_str(out, entry.2.as_str());
            entry.1.write_save_extension(out);
            proof {
                let s = all[i as int];
                let p0 = bytes::u32_le(s.depth % 0x1_0000_0000);
                let p1 = stream::string_bytes(s.key);
                let p2 = wait::wait_bytes(s.wait);
                stream::assoc(o + p0, p1, p2);
                stream::assoc(o, p0, p1 + p2);
                assert(all.take(i + 1).drop_last() =~= all.take(i as int));
                assert(all.take(i + 1).last() == s);
                stream::assoc(old(out)@, suspensions_bytes(all.take(i as int)), suspension_bytes(s));
            }
            i = i + 1;
        }
        proof {
            assert(all.take(i as int) =~= all);
        }
    }

    /// Reads the state at the reader's place and brings it to `frame`. Where no
    /// state begins there, the reader stays where it is.
    pub fn read_extension(rd: &mut StreamReader, frame: u64) -> (r: Result<
        Option<HostFlowSnapshot>,
        FlowError,
    >)
        requires
            old(rd).wf(),
        ensures
            final(rd).wf(),
            final(rd).data == old(rd).data,
            match (r, flow_of(old(rd).rest())) {
                (Ok(Some(s)), Ok(Some(p))) => {
                    &&& s.restores(p.0, frame as int % 0x1_0000_0000)
                    &&& final(rd).rest() == p.1
                },
                (Ok(None), Ok(None)) => *final(rd) == *old(rd),
                (Err(a), Err(b)) => a == b && *final(rd) == *old(rd),
                _ => false,
            },
    {
        let now: u32 = (frame % 0x1_0000_0000) as u32;
        let mut probe = *rd;
        match probe.u32() {
            Ok(mark) => {
                if mark != FLOW_MARK {
                    return Ok(None);
                }
            },
            Err(_) => {
                return Ok(None);
            },
        }
        let version: i32 = match probe.i32() {
            Ok(v) => v,
            Err(e) => {
                return Err(FlowError::Stream(e));
            },
        };
        if version < 1 || version > 3 {
            return Err(FlowError::UnsupportedVersion);
        }
        match read_flow_body(&mut probe, version, now) {
            Ok(s) => {
                *rd = probe;
                Ok(Some(s))
            },
            Err(e) => Err(e),
        }
    }
}

/// The procedures as a save keeps them.
pub open spec fn saved_stack(stack: Seq<ProcFrame>, host_frame: int) -> Seq<SavedFrame> {
    Seq::new(stack.len(), |i: int| stack[i].saved(host_frame))
}

/// Whether the procedures are the saved ones, brought to frame `now`.
pub open spec fn restores_stack(stack: Seq<ProcFrame>, saved: Seq<SavedFrame>, now: int) -> bool {
    &&& stack.len() == saved.len()
    &&& forall|i: int| 0 <= i < stack.len() ==> (#[trigger] stack[i]).restores(saved[i], now)
}

/// The suspended waits as a save keeps them.
pub open spec fn saved_waits(waits: Seq<(usize, VmWait, String)>) -> Seq<SavedSuspension> {
    Seq::new(
        waits.len(),
        |i: int|
            SavedSuspension {
                depth: waits[i].0 as int,
                wait: waits[i].1.saved(),
                key: waits[i].2@,
            },
    )
}

/// Whether `b` is `a` with its deadline moved from frame `from` to frame `to`.
pub open spec fn rebased(a: ProcFrame, b: ProcFrame, from: int, to: int) -> bool {
    &&& b.ty == a.ty
    &&& b.option == a.option
    &&& b.native_record == a.native_record
    &&& b.native_started == a.native_started
    &&& match (a.deadline_frame, b.deadline_frame) {
        (Some(d), Some(e)) => e == moved(d as int, from, to),
        (None, None) => true,
        _ => false,
    }
}

fn write_frame(out: &mut Vec<u8>, f: &ProcFrame, host_frame: u32)
    ensures
        final(out)@ == old(out)@ + frame_bytes(f.saved(host_frame as int)),
{
    push_i32(out, f.ty.code());
    push_i32(out, f.option);
    let ghost o2 = out@;
    match f.deadline_frame {
        Some(d) => {
            push_bool(out, true);
            push_u32(out, d.saturating_sub(host_frame));
            proof {
                stream::assoc(
                    o2,
                    stream::bool_bytes(true),
                    bytes::u32_le(minus(d as int, host_frame as int)),
                );
            }
        },
        None => {
            push_bool(out, false);
        },
    }
    let ghost o3 = out@;
    push_u32(out, low_word_of_len(f.native_record.len()));
    push_raw(out, f.native_record.as_slice());
    push_bool(out, f.native_started);
    proof {
        let s = f.saved(host_frame as int);
        let o = old(out)@;
        let p0 = bytes::i32_le(proc_code(s.ty));
        let p1 = bytes::i32_le(s.option);
        let p2 = opt_bytes(
            match s.deadline {
                Some(d) => Some(bytes::u32_le(d)),
                None => None,
            },
        );
        let p3 = bytes::u32_le(s.record.len() as int % 0x1_0000_0000);
        let p4 = s.record;
        let p5 = stream::bool_bytes(s.started);
        assert(o3 == o2 + p2);
        stream::assoc(o3 + p3, p4, p5);
        stream::assoc(o3, p3, p4 + p5);
        stream::assoc(o2, p2, p3 + (p4 + p5));
        stream::assoc(o + p0, p1, p2 + (p3 + (p4 + p5)));
        stream::assoc(o, p0, p1 + (p2 + (p3 + (p4 + p5))));
    }
}

fn write_tid(out: &mut Vec<u8>, t: &[u16; 7])
    ensures
        final(out)@ == old(out)@ + tid_bytes(t@),
{
    let mut i: usize = 0;
    proof {
        assert(t@.take(0) =~= Seq::<u16>::empty());
        assert(out@ =~= old(out)@ + tid_bytes(t@.take(0)));
    }
    while i < 7
        invariant
            i <= 7,
            t@.len() == 7,
            out@ == old(out)@ + tid_bytes(t@.take(i as int)),
        decreases 7 - i,
    {
        push_u32(out, t[i] as u32);
        proof {
            assert(t@.take(i + 1).drop_last() =~= t@.take(i as int));
            assert(t@.take(i + 1).last() == t@[i as int]);
            stream::assoc(
                old(out)@,
                tid_bytes(t@.take(i as int)),
                bytes::u32_le(t@[i as int] as int),
            );
        }
        i = i + 1;
    }
    proof {
        assert(t@.take(i as int) =~= t@);
    }
}

fn write_opt_pending(out: &mut Vec<u8>, pending: &Option<SyscomPendingProc>)
    ensures
        final(out)@ == old(out)@ + opt_bytes(
            match *pending {
                Some(p) => Some(pending_bytes(p.saved())),
                None => None,
            },
        ),
{
    match pending {
        None => {
            push_bool(out, false);
        },
        Some(p) => {
            push_bool(out, true);
            write_pending(out, p);
            proof {
                stream::assoc(old(out)@, stream::bool_bytes(true), pending_bytes(p.saved()));
            }
        },
    }
}

fn write_pending(out: &mut Vec<u8>, p: &SyscomPendingProc)
    ensures
        final(out)@ == old(out)@ + pending_bytes(p.saved()),
{
    push_i32(out, p.kind.code());
    push_bool(out, p.warning);
    push_bool(out, p.se_play);
    push_bool(out, p.fade_out);
    push_bool(out, p.leave_msgbk);
    push_u32(out, low_word(p.save_id));
    push_u32(out, wait::high_word(p.save_id));
    let ghost o7 = out@;
    match &p.save_tid {
        Some(t) => {
            push_bool(out, true);
            write_tid(out, t);
            proof {
                stream::assoc(o7, stream::bool_bytes(true), tid_bytes(t@));
            }
        },
        None => {
            push_bool(out, false);
        },
    }
    proof {
        let s = p.saved();
        let o = old(out)@;
        let p0 = bytes::i32_le(pending_code(s.kind));
        let p1 = stream::bool_bytes(s.warning);
        let p2 = stream::bool_bytes(s.se_play);
        let p3 = stream::bool_bytes(s.fade_out);
        let p4 = stream::bool_bytes(s.leave_msgbk);
        let p5 = bytes::u32_le(s.save_id as int % 0x1_0000_0000);
        let p6 = bytes::u32_le(high_word(s.save_id as int));
        let p7 = opt_bytes(
            match s.save_tid {
                Some(t) => Some(tid_bytes(t)),
                None => None,
            },
        );
        let q = (((o + p0) + p1) + p2) + p3;
        stream::assoc((q + p4) + p5, p6, p7);
        stream::assoc(q + p4, p5, p6 + p7);
        stream::assoc(q, p4, p5 + (p6 + p7));
        stream::assoc(((o + p0) + p1) + p2, p3, p4 + (p5 + (p6 + p7)));
        stream::assoc((o + p0) + p1, p2, p3 + (p4 + (p5 + (p6 + p7))));
        stream::assoc(o + p0, p1, p2 + (p3 + (p4 + (p5 + (p6 + p7)))));
        stream::assoc(o, p0, p1 + (p2 + (p3 + (p4 + (p5 + (p6 + p7))))));
    }
}

fn get_i32(rd: &mut StreamReader) -> (r: Result<i32, FlowError>)
    requires
        old(rd).wf(),
    ensures
        final(rd).wf(),
        final(rd).data == old(rd).data,
        match (r, lift(stream::i32_of(old(rd).rest()))) {
            (Ok(v), Ok(p)) => v == p.0 && final(rd).rest() == p.1,
            (Err(a), Err(b)) => a == b,
            _ => false,
        },
{
    match rd.i32() {
        Ok(v) => Ok(v),
        Err(e) => Err(FlowError::Stream(e)),
    }
}

fn get_u32(rd: &mut StreamReader) -> (r: Result<u32, FlowError>)
    requires
        old(rd).wf(),
    ensures
        final(rd).wf(),
        final(rd).data == old(rd).data,
        match (r, lift(stream::u32_of(old(rd).rest()))) {
            (Ok(v), Ok(p)) => v == p.0 && final(rd).rest() == p.1,
            (Err(a), Err(b)) => a == b,
            _ => false,
        },
{
    match rd.u32() {
        Ok(v) => Ok(v),
        Err(e) => Err(FlowError::Stream(e)),
    }
}

fn get_bool(rd: &mut StreamReader) -> (r: Result<bool, FlowError>)
    requires
        old(rd).wf(),
    ensures
        final(rd).wf(),
        final(rd).data == old(rd).data,
        match (r, lift(stream::bool_of(old(rd).rest()))) {
            (Ok(v), Ok(p)) => v == p.0 && final(rd).rest() == p.1,
            (Err(a), Err(b)) => a == b,
            _ => false,
        },
{
    match rd.bool() {
        Ok(v) => Ok(v),
        Err(e) => Err(FlowError::Stream(e)),
    }
}

fn read_count(rd: &mut StreamReader) -> (r: Result<usize, FlowError>)
    requires
        old(rd).wf(),
    ensures
        final(rd).wf(),
        final(rd).data == old(rd).data,
        match (r, count_of(old(rd).rest())) {
            (Ok(v), Ok(p)) => v == p.0 && v <= 4096 && final(rd).rest() == p.1,
            (Err(a), Err(b)) => a == b,
            _ => false,
        },
{
    match get_i32(rd) {
        Ok(n) => if 0 <= n && n <= 4096 {
            Ok(n as usize)
        } else {
            Err(FlowError::InvalidCount)
        },
        Err(e) => Err(e),
    }
}

fn read_deadline(rd: &mut StreamReader) -> (r: Result<Option<u32>, FlowError>)
    requires
        old(rd).wf(),
    ensures
        final(rd).wf(),
        final(rd).data == old(rd).data,
        match (r, deadline_of(old(rd).rest())) {
            (Ok(v), Ok(p)) => {
                &&& final(rd).rest() == p.1
                &&& match (v, p.0) {
                    (Some(d), Some(e)) => d == e,
                    (None, None) => true,
                    _ => false,
                }
            },
            (Err(a), Err(b)) => a == b,
            _ => false,
        },
{
    match get_bool(rd) {
        Err(e) => Err(e),
        Ok(has) => if has {
            match get_u32(rd) {
                Ok(d) => Ok(Some(d)),
                Err(e) => Err(e),
            }
        } else {
            Ok(None)
        },
    }
}

fn read_record(rd: &mut StreamReader, version: i32) -> (r: Result<(Vec<u8>, bool), FlowError>)
    requires
        old(rd).wf(),
    ensures
        final(rd).wf(),
        final(rd).data == old(rd).data,
        match (r, record_of(old(rd).rest(), version as int)) {
            (Ok(v), Ok(p)) => v.0@ == p.0.0 && v.1 == p.0.1 && final(rd).rest() == p.1,
            (Err(a), Err(b)) => a == b,
            _ => false,
        },
{
    if version < 2 {
        let none: Vec<u8> = Vec::new();
        proof {
            assert(none@ =~= Seq::<u8>::empty());
        }
        return Ok((none, false));
    }
    let size: i32 = match get_i32(rd) {
        Ok(v) => v,
        Err(e) => {
            return Err(e);
        },
    };
    if size < 0 || size > 1_048_576 {
        return Err(FlowError::InvalidNativeSize);
    }
    let record = match rd.take_raw(size as usize) {
        Ok(v) => v,
        Err(e) => {
            return Err(FlowError::Stream(e));
        },
    };
    match get_bool(rd) {
        Ok(started) => Ok((record, started)),
        Err(e) => Err(e),
    }
}

fn read_frame(rd: &mut StreamReader, version: i32, now: u32) -> (r: Result<ProcFrame, FlowError>)
    requires
        old(rd).wf(),
    ensures
        final(rd).wf(),
        final(rd).data == old(rd).data,
        match (r, frame_of(old(rd).rest(), version as int)) {
            (Ok(f), Ok(p)) => f.restores(p.0, now as int) && final(rd).rest() == p.1,
            (Err(a), Err(b)) => a == b,
            _ => false,
        },
{
    let ty = match get_i32(rd) {
        Ok(code) => match ProcType::read(code) {
            Ok(ty) => ty,
            Err(e) => {
                return Err(e);
            },
        },
        Err(e) => {
            return Err(e);
        },
    };
    let option: i32 = match get_i32(rd) {
        Ok(v) => v,
        Err(e) => {
            return Err(e);
        },
    };
    let deadline_frame: Option<u32> = match read_deadline(rd) {
        Ok(Some(d)) => Some(now.saturating_add(d)),
        Ok(None) => None,
        Err(e) => {
            return Err(e);
        },
    };
    let (native_record, saved_started) = match read_record(rd, version) {
        Ok(v) => v,
        Err(e) => {
            return Err(e);
        },
    };
    if native_record.len() != 0 && native_record.len() < 147 {
        return Err(FlowError::TruncatedNative);
    }
    if ty == ProcType::Native && native_record.len() == 0 {
        return Err(FlowError::MissingNative);
    }
    let mut native_started: bool = saved_started;
    if ty == ProcType::Native {
        let kind: i32 = read_i32(native_record.as_slice(), 0);
        if 22 <= kind && kind <= 24 {
            native_started = false;
        }
    }
    Ok(ProcFrame { ty, option, deadline_frame, native_record, native_started })
}

fn read_stack(rd: &mut StreamReader, count: usize, version: i32, now: u32) -> (r: Result<
    Vec<ProcFrame>,
    FlowError,
>)
    requires
        old(rd).wf(),
    ensures
        final(rd).wf(),
        final(rd).data == old(rd).data,
        match (r, frames_of(old(rd).rest(), count as int, version as int)) {
            (Ok(v), Ok(p)) => {
                &&& restores_stack(v@, p.0, now as int)
                &&& final(rd).rest() == p.1
            },
            (Err(a), Err(b)) => a == b,
            _ => false,
        },
{
    let ghost start = rd.rest();
    let mut stack: Vec<ProcFrame> = Vec::new();
    let mut i: usize = 0;
    while i < count
        invariant
            rd.wf(),
            rd.data == old(rd).data,
            i <= count,
            match frames_of(start, i as int, version as int) {
                Ok(p) => restores_stack(stack@, p.0, now as int) && rd.rest() == p.1,
                Err(_) => false,
            },
            start == old(rd).rest(),
        decreases count - i,
    {
        match read_frame(rd, version, now) {
            Ok(f) => {
                stack.push(f);
            },
            Err(e) => {
                proof {
                    lemma_frames_err(start, i + 1, count as int, version as int);
                }
                return Err(e);
            },
        }
        i = i + 1;
    }
    Ok(stack)
}

/// Where one procedure cannot be read, the whole stack cannot, for the same
/// reason.
proof fn lemma_frames_err(b: Seq<u8>, k: int, n: int, version: int)
    requires
        0 <= k <= n,
        frames_of(b, k, version) is Err,
    ensures
        frames_of(b, n, version) is Err,
        frames_of(b, n, version)->Err_0 == frames_of(b, k, version)->Err_0,
    decreases n - k,
{
    if k < n {
        lemma_frames_err(b, k, n - 1, version);
    }
}

proof fn lemma_suspensions_err(b: Seq<u8>, k: int, n: int, frames: int)
    requires
        0 <= k <= n,
        suspensions_of(b, k, frames) is Err,
    ensures
        suspensions_of(b, n, frames) is Err,
        suspensions_of(b, n, frames)->Err_0 == suspensions_of(b, k, frames)->Err_0,
    decreases n - k,
{
    if k < n {
        lemma_suspensions_err(b, k, n - 1, frames);
    }
}

proof fn lemma_tid_err(b: Seq<u8>, k: int, n: int)
    requires
        0 <= k <= n,
        tid_of(b, k) is Err,
    ensures
        tid_of(b, n) is Err,
        tid_of(b, n)->Err_0 == tid_of(b, k)->Err_0,
    decreases n - k,
{
    if k < n {
        lemma_tid_err(b, k, n - 1);
    }
}

fn read_tid(rd: &mut StreamReader) -> (r: Result<[u16; 7], FlowError>)
    requires
        old(rd).wf(),
    ensures
        final(rd).wf(),
        final(rd).data == old(rd).data,
        match (r, tid_of(old(rd).rest(), 7)) {
            (Ok(v), Ok(p)) => v@ == p.0 && final(rd).rest() == p.1,
            (Err(a), Err(b)) => a == b,
            _ => false,
        },
{
    let ghost start = rd.rest();
    let mut words: Vec<u16> = Vec::new();
    let mut i: usize = 0;
    while i < 7
        invariant
            rd.wf(),
            rd.data == old(rd).data,
            i <= 7,
            start == old(rd).rest(),
            words@.len() == i,
            match tid_of(start, i as int) {
                Ok(p) => words@ == p.0 && rd.rest() == p.1,
                Err(_) => false,
            },
        decreases 7 - i,
    {
        match get_i32(rd) {
            Ok(v) => {
                let w: u16 = if v < 0 {
                    0
                } else if v > 65535 {
                    65535
                } else {
                    v as u16
                };
                words.push(w);
            },
            Err(e) => {
                proof {
                    lemma_tid_err(start, i + 1, 7);
                }
                return Err(e);
            },
        }
        i = i + 1;
    }
    let tid: [u16; 7] = [
        words[0],
        words[1],
        words[2],
        words[3],
        words[4],
        words[5],
        words[6],
    ];
    proof {
        assert(tid@ =~= words@);
    }
    Ok(tid)
}

fn read_opt_tid(rd: &mut StreamReader, version: i32) -> (r: Result<Option<[u16; 7]>, FlowError>)
    requires
        old(rd).wf(),
    ensures
        final(rd).wf(),
        final(rd).data == old(rd).data,
        match (r, opt_tid_of(old(rd).rest(), version as int)) {
            (Ok(v), Ok(p)) => {
                &&& final(rd).rest() == p.1
                &&& match (v, p.0) {
                    (Some(t), Some(s)) => t@ == s,
                    (None, None) => true,
                    _ => false,
                }
            },
            (Err(a), Err(b)) => a == b,
            _ => false,
        },
{
    if version < 3 {
        return Ok(None);
    }
    match get_bool(rd) {
        Err(e) => Err(e),
        Ok(has) => if has {
            match read_tid(rd) {
                Ok(t) => Ok(Some(t)),
                Err(e) => Err(e),
            }
        } else {
            Ok(None)
        },
    }
}

fn read_pending(rd: &mut StreamReader, version: i32) -> (r: Result<SyscomPendingProc, FlowError>)
    requires
        old(rd).wf(),
    ensures
        final(rd).wf(),
        final(rd).data == old(rd).data,
        match (r, pending_of(old(rd).rest(), version as int)) {
            (Ok(v), Ok(p)) => v.saved() == p.0 && final(rd).rest() == p.1,
            (Err(a), Err(b)) => a == b,
            _ => false,
        },
{
    let kind = match get_i32(rd) {
        Ok(code) => match SyscomPendingProcKind::read(code) {
            Ok(kind) => kind,
            Err(e) => {
                return Err(e);
            },
        },
        Err(e) => {
            return Err(e);
        },
    };
    let (warning, se_play, fade_out, leave_msgbk) = match read_flags(rd) {
        Ok(f) => f,
        Err(e) => {
            return Err(e);
        },
    };
    let save_id: i64 = match read_save_id(rd) {
        Ok(v) => v,
        Err(e) => {
            return Err(e);
        },
    };
    match read_opt_tid(rd, version) {
        Ok(save_tid) => Ok(
            SyscomPendingProc { kind, warning, se_play, fade_out, leave_msgbk, save_id, save_tid },
        ),
        Err(e) => Err(e),
    }
}

fn read_flags(rd: &mut StreamReader) -> (r: Result<(bool, bool, bool, bool), FlowError>)
    requires
        old(rd).wf(),
    ensures
        final(rd).wf(),
        final(rd).data == old(rd).data,
        match (r, flags_of(old(rd).rest())) {
            (Ok(v), Ok(p)) => v == p.0 && final(rd).rest() == p.1,
            (Err(a), Err(b)) => a == b,
            _ => false,
        },
{
    let f0: bool = match get_bool(rd) {
        Ok(v) => v,
        Err(e) => {
            return Err(e);
        },
    };
    let f1: bool = match get_bool(rd) {
        Ok(v) => v,
        Err(e) => {
            return Err(e);
        },
    };
    let f2: bool = match get_bool(rd) {
        Ok(v) => v,
        Err(e) => {
            return Err(e);
        },
    };
    match get_bool(rd) {
        Ok(f3) => Ok((f0, f1, f2, f3)),
        Err(e) => Err(e),
    }
}

fn read_save_id(rd: &mut StreamReader) -> (r: Result<i64, FlowError>)
    requires
        old(rd).wf(),
    ensures
        final(rd).wf(),
        final(rd).data == old(rd).data,
        match (r, save_id_of(old(rd).rest())) {
            (Ok(v), Ok(p)) => v == p.0 && final(rd).rest() == p.1,
            (Err(a), Err(b)) => a == b,
            _ => false,
        },
{
    let low: u32 = match get_u32(rd) {
        Ok(v) => v,
        Err(e) => {
            return Err(e);
        },
    };
    match get_u32(rd) {
        Ok(high) => Ok(wait::join_words(low, high)),
        Err(e) => Err(e),
    }
}

fn read_opt_pending(rd: &mut StreamReader, version: i32) -> (r: Result<
    Option<SyscomPendingProc>,
    FlowError,
>)
    requires
        old(rd).wf(),
    ensures
        final(rd).wf(),
        final(rd).data == old(rd).data,
        match (r, opt_pending_of(old(rd).rest(), version as int)) {
            (Ok(v), Ok(p)) => {
                &&& final(rd).rest() == p.1
                &&& match (v, p.0) {
                    (Some(x), Some(y)) => x.saved() == y,
                    (None, None) => true,
                    _ => false,
                }
            },
            (Err(a), Err(b)) => a == b,
            _ => false,
        },
{
    match get_bool(rd) {
        Err(e) => Err(e),
        Ok(has) => if has {
            match read_pending(rd, version) {
                Ok(p) => Ok(Some(p)),
                Err(e) => Err(e),
            }
        } else {
            Ok(None)
        },
    }
}

fn read_suspension(rd: &mut StreamReader, frames: usize) -> (r: Result<
    (usize, VmWait, String),
    FlowError,
>)
    requires
        old(rd).wf(),
        frames <= 4096,
    ensures
        final(rd).wf(),
        final(rd).data == old(rd).data,
        match (r, suspension_of(old(rd).rest(), frames as int)) {
            (Ok(v), Ok(p)) => {
                &&& v.0 == p.0.depth
                &&& v.1.saved() == p.0.wait
                &&& v.2@ == p.0.key
                &&& final(rd).rest() == p.1
            },
            (Err(a), Err(b)) => a == b,
            _ => false,
        },
{
    let depth: i32 = match get_i32(rd) {
        Ok(v) => v,
        Err(e) => {
            return Err(e);
        },
    };
    if depth <= 0 || depth as usize > frames {
        return Err(FlowError::InvalidDepth);
    }
    let key = match rd.string() {
        Ok(s) => s,
        Err(e) => {
            return Err(FlowError::Stream(e));
        },
    };
    match read_save_extension(rd) {
        Ok(w) => Ok((depth as usize, w, key)),
        Err(e) => Err(FlowError::Wait(e)),
    }
}

fn read_waits(rd: &mut StreamReader, count: usize, frames: usize) -> (r: Result<
    Vec<(usize, VmWait, String)>,
    FlowError,
>)
    requires
        old(rd).wf(),
        frames <= 4096,
    ensures
        final(rd).wf(),
        final(rd).data == old(rd).data,
        match (r, suspensions_of(old(rd).rest(), count as int, frames as int)) {
            (Ok(v), Ok(p)) => saved_waits(v@) == p.0 && final(rd).rest() == p.1,
            (Err(a), Err(b)) => a == b,
            _ => false,
        },
{
    let ghost start = rd.rest();
    let mut waits: Vec<(usize, VmWait, String)> = Vec::new();
    let mut i: usize = 0;
    proof {
        assert(saved_waits(waits@) =~= Seq::<SavedSuspension>::empty());
    }
    while i < count
        invariant
            rd.wf(),
            rd.data == old(rd).data,
            frames <= 4096,
            i <= count,
            start == old(rd).rest(),
            match suspensions_of(start, i as int, frames as int) {
                Ok(p) => saved_waits(waits@) == p.0 && rd.rest() == p.1,
                Err(_) => false,
            },
        decreases count - i,
    {
        let ghost before = saved_waits(waits@);
        match read_suspension(rd, frames) {
            Ok(w) => {
                waits.push(w);
                proof {
                    assert(saved_waits(waits@) =~= before.push(
                        SavedSuspension { depth: w.0 as int, wait: w.1.saved(), key: w.2@ },
                    ));
                }
            },
            Err(e) => {
                proof {
                    lemma_suspensions_err(start, i + 1, count as int, frames as int);
                }
                return Err(e);
            },
        }
        i = i + 1;
    }
    Ok(waits)
}

fn read_flow_body(rd: &mut StreamReader, version: i32, now: u32) -> (r: Result<
    HostFlowSnapshot,
    FlowError,
>)
    requires
        old(rd).wf(),
    ensures
        final(rd).wf(),
        final(rd).data == old(rd).data,
        match (r, flow_body_of(old(rd).rest(), version as int)) {
            (Ok(s), Ok(p)) => s.restores(p.0, now as int) && final(rd).rest() == p.1,
            (Err(a), Err(b)) => a == b,
            _ => false,
        },
{
    let booted_menu: bool = match get_bool(rd) {
        Ok(v) => v,
        Err(e) => {
            return Err(e);
        },
    };
    let count: usize = match read_count(rd) {
        Ok(v) => v,
        Err(e) => {
            return Err(e);
        },
    };
    proof {
        lemma_frames_len(rd.rest(), count as int, version as int);
    }
    let stack = match read_stack(rd, count, version, now) {
        Ok(v) => v,
        Err(e) => {
            return Err(e);
        },
    };
    let pending_syscom_proc = match read_opt_pending(rd, version) {
        Ok(v) => v,
        Err(e) => {
            return Err(e);
        },
    };
    let waits: usize = match read_count(rd) {
        Ok(v) => v,
        Err(e) => {
            return Err(e);
        },
    };
    let suspended_waits = match read_waits(rd, waits, stack.len()) {
        Ok(v) => v,
        Err(e) => {
            return Err(e);
        },
    };
    Ok(
        HostFlowSnapshot {
            flow: ProcFlow { stack, booted_menu, pending_syscom_proc },
            suspended_waits,
            host_frame: now,
        },
    )
}

proof fn lemma_frames_len(b: Seq<u8>, n: int, version: int)
    requires
        0 <= n,
    ensures
        frames_of(b, n, version) matches Ok(p) ==> p.0.len() == n,
    decreases n,
{
    if n > 0 {
        lemma_frames_len(b, n - 1, version);
    }
}

/// Whether a save can hold a procedure.
pub open spec fn storable_frame(f: SavedFrame) -> bool {
    &&& i32::MIN <= f.option <= i32::MAX
    &&& f.deadline matches Some(d) ==> 0 <= d <= u32::MAX
    &&& f.record.len() == 0 || 147 <= f.record.len() <= 1_048_576
    &&& f.ty == ProcType::Native ==> f.record.len() != 0
}

/// A procedure as it is after a load: a window animation begins anew.
pub open spec fn resumed(f: SavedFrame) -> SavedFrame {
    SavedFrame {
        ty: f.ty,
        option: f.option,
        deadline: f.deadline,
        record: f.record,
        started: f.started && !rebuilt(f.ty, f.record),
    }
}

pub open spec fn resumed_stack(s: Seq<SavedFrame>) -> Seq<SavedFrame> {
    Seq::new(s.len(), |i: int| resumed(s[i]))
}

pub open spec fn storable_suspension(s: SavedSuspension, frames: int) -> bool {
    &&& 1 <= s.depth <= frames
    &&& text::utf16(s.key).len() <= i32::MAX
    &&& s.wait.pending matches wait::SavedValue::Text(t) ==> text::utf16(t).len() <= i32::MAX
}

/// Whether a save can hold the host's state.
pub open spec fn storable(s: SavedFlow) -> bool {
    &&& s.stack.len() <= 4096
    &&& forall|i: int| 0 <= i < s.stack.len() ==> storable_frame(#[trigger] s.stack[i])
    &&& s.pending matches Some(p) ==> (p.save_tid matches Some(t) ==> t.len() == 7)
    &&& s.waits.len() <= 4096
    &&& forall|i: int|
        0 <= i < s.waits.len() ==> storable_suspension(
            #[trigger] s.waits[i],
            s.stack.len() as int,
        )
}

proof fn lemma_frame_round_trip(f: SavedFrame, tail: Seq<u8>)
    requires
        storable_frame(f),
    ensures
        frame_of(frame_bytes(f) + tail, 3) == Ok::<(SavedFrame, Seq<u8>), FlowError>(
            (resumed(f), tail),
        ),
{
    let p0 = bytes::i32_le(proc_code(f.ty));
    let p1 = bytes::i32_le(f.option);
    let p2 = opt_bytes(
        match f.deadline {
            Some(d) => Some(bytes::u32_le(d)),
            None => None,
        },
    );
    let n = f.record.len() as int;
    let p3 = bytes::u32_le(n % 0x1_0000_0000);
    let p4 = f.record;
    let p5 = stream::bool_bytes(f.started);
    stream::assoc(p4, p5, tail);
    stream::assoc(p3, p4 + p5, tail);
    stream::assoc(p2, p3 + (p4 + p5), tail);
    stream::assoc(p1, p2 + (p3 + (p4 + p5)), tail);
    stream::assoc(p0, p1 + (p2 + (p3 + (p4 + p5))), tail);
    let t5 = p5 + tail;
    let t4 = p4 + t5;
    let t3 = p3 + t4;
    let t2 = p2 + t3;
    let t1 = p1 + t2;
    stream::i32_round_trip(proc_code(f.ty), t1);
    stream::i32_round_trip(f.option, t2);
    match f.deadline {
        Some(d) => {
            stream::assoc(stream::bool_bytes(true), bytes::u32_le(d), t3);
            stream::bool_round_trip(true, bytes::u32_le(d) + t3);
            stream::u32_round_trip(d, t3);
        },
        None => {
            stream::bool_round_trip(false, t3);
        },
    }
    assert(deadline_of(t2) == Ok::<(Option<int>, Seq<u8>), FlowError>((f.deadline, t3)));
    assert(bytes::word(n) == n % 0x1_0000_0000);
    stream::i32_round_trip(n, t4);
    stream::raw_round_trip(p4, t5);
    stream::bool_round_trip(f.started, tail);
    assert(record_of(t3, 3) == Ok::<((Seq<u8>, bool), Seq<u8>), FlowError>(
        ((f.record, f.started), tail),
    ));
}

proof fn lemma_frames_round_trip(s: Seq<SavedFrame>, tail: Seq<u8>)
    requires
        forall|i: int| 0 <= i < s.len() ==> storable_frame(#[trigger] s[i]),
    ensures
        frames_of(frames_bytes(s) + tail, s.len() as int, 3) == Ok::<
            (Seq<SavedFrame>, Seq<u8>),
            FlowError,
        >((resumed_stack(s), tail)),
    decreases s.len(),
{
    if s.len() == 0 {
        assert(frames_bytes(s) + tail =~= tail);
        assert(resumed_stack(s) =~= Seq::<SavedFrame>::empty());
    } else {
        let head = s.drop_last();
        let last = frame_bytes(s.last());
        stream::assoc(frames_bytes(head), last, tail);
        assert forall|i: int| 0 <= i < head.len() implies storable_frame(#[trigger] head[i]) by {
            assert(head[i] == s[i]);
        }
        lemma_frames_round_trip(head, last + tail);
        lemma_frame_round_trip(s.last(), tail);
        assert(resumed_stack(head).push(resumed(s.last())) =~= resumed_stack(s));
    }
}

proof fn lemma_tid_round_trip(t: Seq<u16>, tail: Seq<u8>)
    ensures
        tid_of(tid_bytes(t) + tail, t.len() as int) == Ok::<(Seq<u16>, Seq<u8>), FlowError>(
            (t, tail),
        ),
    decreases t.len(),
{
    if t.len() == 0 {
        assert(tid_bytes(t) + tail =~= tail);
        assert(t =~= Seq::<u16>::empty());
    } else {
        let v = t.last() as int;
        let last = bytes::u32_le(v);
        stream::assoc(tid_bytes(t.drop_last()), last, tail);
        lemma_tid_round_trip(t.drop_last(), last + tail);
        assert(bytes::word(v) == v);
        stream::i32_round_trip(v, tail);
        assert(t.drop_last().push(t.last()) =~= t);
    }
}

proof fn lemma_flags_round_trip(a: bool, b: bool, c: bool, d: bool, tail: Seq<u8>)
    ensures
        flags_of(
            stream::bool_bytes(a) + (stream::bool_bytes(b) + (stream::bool_bytes(c) + (
            stream::bool_bytes(d) + tail))),
        ) == Ok::<((bool, bool, bool, bool), Seq<u8>), FlowError>(((a, b, c, d), tail)),
{
    let t3 = stream::bool_bytes(d) + tail;
    let t2 = stream::bool_bytes(c) + t3;
    let t1 = stream::bool_bytes(b) + t2;
    stream::bool_round_trip(a, t1);
    stream::bool_round_trip(b, t2);
    stream::bool_round_trip(c, t3);
    stream::bool_round_trip(d, tail);
}

proof fn lemma_pending_round_trip(p: SavedPending, tail: Seq<u8>)
    requires
        p.save_tid matches Some(t) ==> t.len() == 7,
    ensures
        pending_of(pending_bytes(p) + tail, 3) == Ok::<(SavedPending, Seq<u8>), FlowError>(
            (p, tail),
        ),
{
    let p0 = bytes::i32_le(pending_code(p.kind));
    let p1 = stream::bool_bytes(p.warning);
    let p2 = stream::bool_bytes(p.se_play);
    let p3 = stream::bool_bytes(p.fade_out);
    let p4 = stream::bool_bytes(p.leave_msgbk);
    let low = p.save_id as int % 0x1_0000_0000;
    let high = high_word(p.save_id as int);
    let p5 = bytes::u32_le(low);
    let p6 = bytes::u32_le(high);
    let p7 = opt_bytes(
        match p.save_tid {
            Some(t) => Some(tid_bytes(t)),
            None => None,
        },
    );
    stream::assoc(p6, p7, tail);
    stream::assoc(p5, p6 + p7, tail);
    stream::assoc(p4, p5 + (p6 + p7), tail);
    stream::assoc(p3, p4 + (p5 + (p6 + p7)), tail);
    stream::assoc(p2, p3 + (p4 + (p5 + (p6 + p7))), tail);
    stream::assoc(p1, p2 + (p3 + (p4 + (p5 + (p6 + p7)))), tail);
    stream::assoc(p0, p1 + (p2 + (p3 + (p4 + (p5 + (p6 + p7))))), tail);
    let t7 = p7 + tail;
    let t6 = p6 + t7;
    let t5 = p5 + t6;
    let t1 = p1 + (p2 + (p3 + (p4 + t5)));
    stream::i32_round_trip(pending_code(p.kind), t1);
    lemma_flags_round_trip(p.warning, p.se_play, p.fade_out, p.leave_msgbk, t5);
    stream::u32_round_trip(low, t6);
    stream::u32_round_trip(high, t7);
    assert(wait::joined(low, high) == p.save_id);
    match p.save_tid {
        Some(t) => {
            stream::assoc(stream::bool_bytes(true), tid_bytes(t), tail);
            stream::bool_round_trip(true, tid_bytes(t) + tail);
            lemma_tid_round_trip(t, tail);
        },
        None => {
            stream::bool_round_trip(false, tail);
        },
    }
    assert(opt_tid_of(t7, 3) == Ok::<(Option<Seq<u16>>, Seq<u8>), FlowError>((p.save_tid, tail)));
}

proof fn lemma_suspension_round_trip(s: SavedSuspension, frames: int, tail: Seq<u8>)
    requires
        storable_suspension(s, frames),
        frames <= 4096,
    ensures
        suspension_of(suspension_bytes(s) + tail, frames) == Ok::<
            (SavedSuspension, Seq<u8>),
            FlowError,
        >((s, tail)),
{
    let p0 = bytes::u32_le(s.depth % 0x1_0000_0000);
    let p1 = stream::string_bytes(s.key);
    let p2 = wait::wait_bytes(s.wait);
    stream::assoc(p1, p2, tail);
    stream::assoc(p0, p1 + p2, tail);
    assert(bytes::word(s.depth) == s.depth % 0x1_0000_0000);
    stream::i32_round_trip(s.depth, p1 + (p2 + tail));
    stream::string_round_trip(s.key, p2 + tail);
    wait::wait_round_trip(s.wait, tail);
}

proof fn lemma_suspensions_round_trip(s: Seq<SavedSuspension>, frames: int, tail: Seq<u8>)
    requires
        forall|i: int| 0 <= i < s.len() ==> storable_suspension(#[trigger] s[i], frames),
        frames <= 4096,
    ensures
        suspensions_of(suspensions_bytes(s) + tail, s.len() as int, frames) == Ok::<
            (Seq<SavedSuspension>, Seq<u8>),
            FlowError,
        >((s, tail)),
    decreases s.len(),
{
    if s.len() == 0 {
        assert(suspensions_bytes(s) + tail =~= tail);
        assert(s =~= Seq::<SavedSuspension>::empty());
    } else {
        let head = s.drop_last();
        let last = suspension_bytes(s.last());
        stream::assoc(suspensions_bytes(head), last, tail);
        assert forall|i: int| 0 <= i < head.len() implies storable_suspension(
            #[trigger] head[i],
            frames,
        ) by {
            assert(head[i] == s[i]);
        }
        lemma_suspensions_round_trip(head, frames, last + tail);
        lemma_suspension_round_trip(s.last(), frames, tail);
        assert(head.push(s.last()) =~= s);
    }
}

/// Reading the host's state gives back the one that was written, whatever
/// follows it in the save. Only window animations begin anew.
pub proof fn flow_round_trip(s: SavedFlow, tail: Seq<u8>)
    requires
        storable(s),
    ensures
        flow_of(flow_bytes(s) + tail) == Ok::<Option<(SavedFlow, Seq<u8>)>, FlowError>(
            Some(
                (
                    SavedFlow {
                        booted_menu: s.booted_menu,
                        stack: resumed_stack(s.stack),
                        pending: s.pending,
                        waits: s.waits,
                    },
                    tail,
                ),
            ),
        ),
{
    let p0 = bytes::u32_le(FLOW_MARK as int);
    let p1 = bytes::u32_le(FLOW_VERSION as int);
    let p2 = stream::bool_bytes(s.booted_menu);
    let n = s.stack.len() as int;
    let p3 = bytes::u32_le(n % 0x1_0000_0000);
    let p4 = frames_bytes(s.stack);
    let p5 = opt_bytes(
        match s.pending {
            Some(p) => Some(pending_bytes(p)),
            None => None,
        },
    );
    let m = s.waits.len() as int;
    let p6 = bytes::u32_le(m % 0x1_0000_0000);
    let p7 = suspensions_bytes(s.waits);
    stream::assoc(p6, p7, tail);
    stream::assoc(p5, p6 + p7, tail);
    stream::assoc(p4, p5 + (p6 + p7), tail);
    stream::assoc(p3, p4 + (p5 + (p6 + p7)), tail);
    stream::assoc(p2, p3 + (p4 + (p5 + (p6 + p7))), tail);
    stream::assoc(p1, p2 + (p3 + (p4 + (p5 + (p6 + p7)))), tail);
    stream::assoc(p0, p1 + (p2 + (p3 + (p4 + (p5 + (p6 + p7))))), tail);
    let t7 = p7 + tail;
    let t6 = p6 + t7;
    let t5 = p5 + t6;
    let t4 = p4 + t5;
    let t3 = p3 + t4;
    let t2 = p2 + t3;
    stream::u32_round_trip(FLOW_MARK as int, p1 + t2);
    assert(bytes::word(3) == 3);
    stream::i32_round_trip(3, t2);
    stream::bool_round_trip(s.booted_menu, t3);
    assert(bytes::word(n) == n % 0x1_0000_0000);
    stream::i32_round_trip(n, t4);
    lemma_frames_round_trip(s.stack, t5);
    match s.pending {
        Some(p) => {
            stream::assoc(stream::bool_bytes(true), pending_bytes(p), t6);
            stream::bool_round_trip(true, pending_bytes(p) + t6);
            lemma_pending_round_trip(p, t6);
        },
        None => {
            stream::bool_round_trip(false, t6);
        },
    }
    assert(opt_pending_of(t5, 3) == Ok::<(Option<SavedPending>, Seq<u8>), FlowError>(
        (s.pending, t6),
    ));
    assert(bytes::word(m) == m % 0x1_0000_0000);
    stream::i32_round_trip(m, t7);
    lemma_suspensions_round_trip(s.waits, n, tail);
}

/// A stream that does not begin with the host's state is left alone.
pub proof fn absent_flow_is_not_read(b: Seq<u8>)
    requires
        b.len() < 4 || bytes::u32_at(b, 0) != FLOW_MARK,
    ensures
        flow_of(b) == Ok::<Option<(SavedFlow, Seq<u8>)>, FlowError>(None),
{
    reveal(stream::u32_of);
}

/// As much time is left after a deadline has been moved as was left before,
/// unless the frame numbers end.
pub proof fn moving_keeps_time_left(deadline: int, from: int, to: int)
    requires
        0 <= from,
        0 <= to,
        0 <= deadline,
        to + minus(deadline, from) <= u32::MAX,
    ensures
        minus(moved(deadline, from, to), to) == minus(deadline, from),
{
}

/// Each procedure is stored under a number of its own.
pub proof fn procedures_have_their_numbers(v: int)
    ensures
        proc_of(v) == Some(ProcType::Script) <==> v == 1,
        proc_of(v) == Some(ProcType::Disp) <==> v == 2,
        proc_of(v) == Some(ProcType::GameEndWipe) <==> v == 4,
        proc_of(v) == Some(ProcType::GameTimerStart) <==> v == 5,
        proc_of(v) == Some(ProcType::ReturnToMenu) <==> v == 8,
        proc_of(v) == Some(ProcType::MsgBack) <==> v == 17,
        proc_of(v) == Some(ProcType::TimeWait) <==> v == 20,
        proc_of(v) == Some(ProcType::EndGame) <==> v == 44,
        proc_of(v) == Some(ProcType::StartWarning) <==> v == 45,
        proc_of(v) == Some(ProcType::SyscomWarning) <==> v == 256,
        proc_of(v) == Some(ProcType::Native) <==> v == 257,
{
}

/// Each request of the system menu is stored under a number of its own.
pub proof fn requests_have_their_numbers(v: int)
    ensures
        pending_kind_of(v) == Some(SyscomPendingProcKind::EndGame) <==> v == 0,
        pending_kind_of(v) == Some(SyscomPendingProcKind::ReturnToSel) <==> v == 1,
        pending_kind_of(v) == Some(SyscomPendingProcKind::ReturnToMenu) <==> v == 2,
        pending_kind_of(v) == Some(SyscomPendingProcKind::Save) <==> v == 3,
        pending_kind_of(v) == Some(SyscomPendingProcKind::Load) <==> v == 4,
        pending_kind_of(v) == Some(SyscomPendingProcKind::QuickSave) <==> v == 5,
        pending_kind_of(v) == Some(SyscomPendingProcKind::QuickLoad) <==> v == 6,
        pending_kind_of(v) == Some(SyscomPendingProcKind::BacklogLoad) <==> v == 7,
        pending_kind_of(v) == Some(SyscomPendingProcKind::MsgBack) <==> v == 8,
        pending_kind_of(v) == Some(SyscomPendingProcKind::OpenSyscomMenu) <==> v == 9,
        pending_kind_of(v) == Some(SyscomPendingProcKind::OpenSave) <==> v == 10,
        pending_kind_of(v) == Some(SyscomPendingProcKind::OpenLoad) <==> v == 11,
        pending_kind_of(v) == Some(SyscomPendingProcKind::OpenConfig) <==> v == 12,
{
}

/// A procedure that waits for a frame waits as many frames after it was restored as were left
/// when it was stored, and none where its frame had come. Nothing else of it changes.
pub proof fn restored_procedures_wait_the_frames_that_were_left(
    a: ProcFrame,
    b: ProcFrame,
    stored: u32,
    now: u32,
)
    requires
        b.restores(a.saved(stored as int), now as int),
    ensures
        b.ty == a.ty,
        b.option == a.option,
        b.native_record@ == a.native_record@,
        b.native_started == a.native_started,
        (a.deadline_frame is None) == (b.deadline_frame is None),
        a.deadline_frame matches Some(d) ==> (b.deadline_frame matches Some(e) && {
            &&& d <= stored ==> e == now
            &&& d > stored && now + (d - stored) <= u32::MAX ==> e - now == d - stored
            &&& d > stored && now + (d - stored) > u32::MAX ==> e == u32::MAX
        }),
{
}

/// A stored procedure begins with its number and its option. A byte tells whether it waits for a
/// frame, and how many frames were left stands behind that.
pub proof fn stored_procedures_begin_with_their_number(b: Seq<u8>, version: int)
    requires
        frame_of(b, version) is Ok,
    ensures
        b.len() >= 9,
        proc_of(bytes::i32_at(b, 0)) == Some(frame_of(b, version)->Ok_0.0.ty),
        frame_of(b, version)->Ok_0.0.option == bytes::i32_at(b, 4),
        b[8] == 0 ==> frame_of(b, version)->Ok_0.0.deadline is None,
        b[8] != 0 ==> b.len() >= 13 && frame_of(b, version)->Ok_0.0.deadline == Some(
            bytes::u32_at(b, 9),
        ),
        version < 2 ==> frame_of(b, version)->Ok_0.0.record.len() == 0 && !frame_of(
            b,
            version,
        )->Ok_0.0.started,
{
    reveal(stream::i32_of);
    reveal(stream::u32_of);
    reveal(stream::bool_of);
    assert(b.skip(4).skip(4) =~= b.skip(8));
    assert(b.skip(8).skip(1) =~= b.skip(9));
}

/// A stored request begins with its number. Four bytes tell what goes with it, and the number of
/// the save stands behind them, its lower half first.
pub proof fn stored_requests_begin_with_their_number(b: Seq<u8>, version: int)
    requires
        pending_of(b, version) is Ok,
    ensures
        b.len() >= 16,
        ({
            let p = pending_of(b, version)->Ok_0.0;
            let id = bytes::u32_at(b, 8) + bytes::u32_at(b, 12) * 0x1_0000_0000;
            &&& pending_kind_of(bytes::i32_at(b, 0)) == Some(p.kind)
            &&& p.warning == (b[4] != 0)
            &&& p.se_play == (b[5] != 0)
            &&& p.fade_out == (b[6] != 0)
            &&& p.leave_msgbk == (b[7] != 0)
            &&& p.save_id == id || p.save_id == id - 0x1_0000_0000_0000_0000
            &&& version < 3 ==> p.save_tid is None
        }),
{
    reveal(stream::i32_of);
    reveal(stream::u32_of);
    reveal(stream::bool_of);
    assert(b.skip(4).skip(1) =~= b.skip(5));
    assert(b.skip(5).skip(1) =~= b.skip(6));
    assert(b.skip(6).skip(1) =~= b.skip(7));
    assert(b.skip(7).skip(1) =~= b.skip(8));
    assert(b.skip(8).skip(4) =~= b.skip(12));
}

/// Only what begins with the letters SGPF is read, and only of the versions 1 to 3.
pub proof fn stored_flows_begin_with_their_letters(b: Seq<u8>)
    ensures
        flow_of(b) matches Ok(Some(_)) ==> {
            &&& b.len() >= 8
            &&& b[0] == 0x53 && b[1] == 0x47 && b[2] == 0x50 && b[3] == 0x46
            &&& 1 <= bytes::i32_at(b, 4) <= 3
        },
        b.len() >= 8 && b[0] == 0x53 && b[1] == 0x47 && b[2] == 0x50 && b[3] == 0x46 && !(1
            <= bytes::i32_at(b, 4) <= 3) ==> flow_of(b) == Err::<
            Option<(SavedFlow, Seq<u8>)>,
            FlowError,
        >(FlowError::UnsupportedVersion),
{
    reveal(stream::i32_of);
    reveal(stream::u32_of);
}

} // verus!
