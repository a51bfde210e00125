//! What a suspended script waits for, and how that is kept in a save.

use vstd::prelude::*;
use crate::bytes;
use crate::bytes::push_u32;
use crate::runtime::stream;
use crate::runtime::stream::{push_bool, push_str, StreamError, StreamReader};
use crate::runtime::value::Value;
use crate::text;

verus! {

/// A sound whose end a script waits for.
#[derive(Debug, Clone, Copy, PartialEq, Eq, Structural)]
pub enum AudioWait {
    Bgm,
    BgmFade,
    KoeAny,
    PcmAny,
    PcmSlot(u8),
    PcmSlotFade(u8),
}

/// What a script waits for. `key` says whether a key ends the wait early, and
/// `result` whether the wait leaves a result.
#[derive(Debug, Clone, Copy, PartialEq, Eq, Structural)]
pub enum WaitTarget {
    Nothing,
    Time { ms: u64, key: bool },
    Audio { sound: AudioWait, key: bool, result: bool },
    PcmEvent { form: u32, index: u32, key: bool, result: bool },
    Movie { key: bool, result: bool },
    Wipe { key: bool },
    MessageReveal,
}

#[derive(Debug)]
pub struct VmWait {
    pub waiting_for_key: bool,
    pub system_modal: bool,
    pub target: WaitTarget,
    /// The result that the wait has produced.
    pub pending_value: Option<Value>,
    pub native_returns: bool,
    pub native_key: bool,
}

/// The part of a result that a save keeps.
#[verifier::ext_equal]
pub enum SavedValue {
    Nothing,
    Number(i64),
    Text(Seq<char>),
}

/// The part of a wait that a save keeps.
#[verifier::ext_equal]
pub struct SavedWait {
    pub waiting_for_key: bool,
    pub system_modal: bool,
    pub target: WaitTarget,
    pub pending: SavedValue,
}

pub open spec fn saved_value(v: Option<Value>) -> SavedValue {
    match v {
        Some(Value::Int(n)) => SavedValue::Number(n),
        Some(Value::Str(s)) => SavedValue::Text(s@),
        _ => SavedValue::Nothing,
    }
}

/// Five fields that describe a target: its kind, two numbers and two flags.
pub open spec fn target_fields(t: WaitTarget) -> (int, int, int, bool, bool) {
    match t {
        WaitTarget::Nothing => (0, 0, 0, false, false),
        WaitTarget::Time { ms, key } => (
            1,
            ms as int % 0x1_0000_0000,
            ms as int / 0x1_0000_0000,
            key,
            false,
        ),
        WaitTarget::Audio { sound, key, result } => (
            2,
            match sound {
                AudioWait::Bgm => 0,
                AudioWait::BgmFade => 1,
                AudioWait::KoeAny => 2,
                AudioWait::PcmAny => 3,
                AudioWait::PcmSlot(_) => 4,
                AudioWait::PcmSlotFade(_) => 5,
            },
            match sound {
                AudioWait::PcmSlot(n) => n as int,
                AudioWait::PcmSlotFade(n) => n as int,
                _ => 0,
            },
            key,
            result,
        ),
        WaitTarget::PcmEvent { form, index, key, result } => (
            3,
            form as int,
            index as int,
            key,
            result,
        ),
        WaitTarget::Movie { key, result } => (4, 0, 0, key, result),
        WaitTarget::Wipe { key } => (5, 0, 0, key, false),
        WaitTarget::MessageReveal => (6, 0, 0, false, false),
    }
}

/// The target that five fields describe, or `None` where they describe none.
pub open spec fn target_from(kind: int, a: int, b: int, key: bool, result: bool) -> Option<
    WaitTarget,
> {
    if kind == 0 {
        Some(WaitTarget::Nothing)
    } else if kind == 1 {
        Some(WaitTarget::Time { ms: (a + b * 0x1_0000_0000) as u64, key })
    } else if kind == 2 {
        if a == 0 {
            Some(WaitTarget::Audio { sound: AudioWait::Bgm, key, result })
        } else if a == 1 {
            Some(WaitTarget::Audio { sound: AudioWait::BgmFade, key, result })
        } else if a == 2 {
            Some(WaitTarget::Audio { sound: AudioWait::KoeAny, key, result })
        } else if a == 3 {
            Some(WaitTarget::Audio { sound: AudioWait::PcmAny, key, result })
        } else if a == 4 && b <= 255 {
            Some(WaitTarget::Audio { sound: AudioWait::PcmSlot(b as u8), key, result })
        } else if a == 5 && b <= 255 {
            Some(WaitTarget::Audio { sound: AudioWait::PcmSlotFade(b as u8), key, result })
        } else {
            None
        }
    } else if kind == 3 {
        Some(WaitTarget::PcmEvent { form: a as u32, index: b as u32, key, result })
    } else if kind == 4 {
        Some(WaitTarget::Movie { key, result })
    } else if kind == 5 {
        Some(WaitTarget::Wipe { key })
    } else if kind == 6 {
        Some(WaitTarget::MessageReveal)
    } else {
        None
    }
}

/// Marks the beginning of a wait in a save.
pub const WAIT_MARK: u32 = 0x54494157;

pub open spec fn value_bytes(v: SavedValue) -> Seq<u8> {
    match v {
        SavedValue::Nothing => bytes::u32_le(0),
        SavedValue::Number(n) => bytes::u32_le(1) + bytes::u32_le(n as int % 0x1_0000_0000)
            + bytes::u32_le(n as int / 0x1_0000_0000 % 0x1_0000_0000),
        SavedValue::Text(s) => bytes::u32_le(2) + stream::string_bytes(s),
    }
}

pub open spec fn target_bytes(t: WaitTarget) -> Seq<u8> {
    let f = target_fields(t);
    bytes::u32_le(f.0) + (bytes::u32_le(f.1) + (bytes::u32_le(f.2) + (stream::bool_bytes(f.3)
        + stream::bool_bytes(f.4))))
}

pub open spec fn wait_bytes(w: SavedWait) -> Seq<u8> {
    bytes::u32_le(WAIT_MARK as int) + (stream::bool_bytes(w.waiting_for_key) + (stream::bool_bytes(
        w.system_modal,
    ) + (target_bytes(w.target) + value_bytes(w.pending))))
}

/// Why a wait cannot be read.
#[derive(Debug, Clone, Copy, PartialEq, Eq, Structural)]
pub enum WaitError {
    Stream(StreamError),
    /// No wait begins here.
    Missing,
    /// The wait names something that is not known.
    Unknown,
}

/// The 64-bit number of two words.
pub open spec fn joined(low: int, high: int) -> int {
    let v = low + high * 0x1_0000_0000;
    if v >= 0x8000_0000_0000_0000 {
        v - 0x1_0000_0000_0000_0000
    } else {
        v
    }
}

pub open spec fn value_of(b: Seq<u8>) -> Result<(SavedValue, Seq<u8>), WaitError> {
    match stream::u32_of(b) {
        Err(e) => Err(WaitError::Stream(e)),
        Ok((kind, b1)) => if kind == 0 {
            Ok((SavedValue::Nothing, b1))
        } else if kind == 1 {
            match stream::u32_of(b1) {
                Err(e) => Err(WaitError::Stream(e)),
                Ok((low, b2)) => match stream::u32_of(b2) {
                    Err(e) => Err(WaitError::Stream(e)),
                    Ok((high, b3)) => Ok((SavedValue::Number(joined(low, high) as i64), b3)),
                },
            }
        } else if kind == 2 {
            match stream::string_of(b1) {
                Err(e) => Err(WaitError::Stream(e)),
                Ok((s, b2)) => Ok((SavedValue::Text(s), b2)),
            }
        } else {
            Err(WaitError::Unknown)
        },
    }
}

/// The target and the bytes behind it.
pub open spec fn target_of(b: Seq<u8>) -> Result<(WaitTarget, Seq<u8>), WaitError> {
    match stream::u32_of(b) {
        Err(e) => Err(WaitError::Stream(e)),
        Ok((kind, b1)) => match stream::u32_of(b1) {
            Err(e) => Err(WaitError::Stream(e)),
            Ok((p, b2)) => match stream::u32_of(b2) {
                Err(e) => Err(WaitError::Stream(e)),
                Ok((q, b3)) => match stream::bool_of(b3) {
                    Err(e) => Err(WaitError::Stream(e)),
                    Ok((key, b4)) => match stream::bool_of(b4) {
                        Err(e) => Err(WaitError::Stream(e)),
                        Ok((result, b5)) => match target_from(kind, p, q, key, result) {
                            None => Err(WaitError::Unknown),
                            Some(t) => Ok((t, b5)),
                        },
                    },
                },
            },
        },
    }
}

/// The wait that begins at the front of `b`, and the bytes behind it.
pub open spec fn wait_of(b: Seq<u8>) -> Result<(SavedWait, Seq<u8>), WaitError> {
    match stream::u32_of(b) {
        Err(_) => Err(WaitError::Missing),
        Ok((mark, b1)) => if mark != WAIT_MARK {
            Err(WaitError::Missing)
        } else {
            match stream::bool_of(b1) {
                Err(e) => Err(WaitError::Stream(e)),
                Ok((key, b2)) => match stream::bool_of(b2) {
                    Err(e) => Err(WaitError::Stream(e)),
                    Ok((modal, b3)) => match target_of(b3) {
                        Err(e) => Err(e),
                        Ok((target, b4)) => match value_of(b4) {
                            Err(e) => Err(e),
                            Ok((pending, b5)) => Ok(
                                (
                                    SavedWait {
                                        waiting_for_key: key,
                                        system_modal: modal,
                                        target,
                                        pending,
                                    },
                                    b5,
                                ),
                            ),
                        },
                    },
                },
            }
        },
    }
}

proof fn lemma_value_round_trip(v: SavedValue, tail: Seq<u8>)
    requires
        v matches SavedValue::Text(s) ==> text::utf16(s).len() <= i32::MAX,
    ensures
        value_of(value_bytes(v) + tail) == Ok::<(SavedValue, Seq<u8>), WaitError>((v, tail)),
{
    match v {
        SavedValue::Nothing => {
            stream::u32_round_trip(0, tail);
        },
        SavedValue::Number(n) => {
            let low = n as int % 0x1_0000_0000;
            let high = n as int / 0x1_0000_0000 % 0x1_0000_0000;
            let b2 = bytes::u32_le(high) + tail;
            let b1 = bytes::u32_le(low) + b2;
            assert(value_bytes(v) + tail =~= bytes::u32_le(1) + b1);
            stream::u32_round_trip(1, b1);
            stream::u32_round_trip(low, b2);
            stream::u32_round_trip(high, tail);
            assert(joined(low, high) == n);
        },
        SavedValue::Text(s) => {
            let b1 = stream::string_bytes(s) + tail;
            assert(value_bytes(v) + tail =~= bytes::u32_le(2) + b1);
            stream::u32_round_trip(2, b1);
            stream::string_round_trip(s, tail);
        },
    }
}

proof fn lemma_target_round_trip(t: WaitTarget, tail: Seq<u8>)
    ensures
        target_of(target_bytes(t) + tail) == Ok::<(WaitTarget, Seq<u8>), WaitError>((t, tail)),
{
    let f = target_fields(t);
    let (p0, p1, p2) = (bytes::u32_le(f.0), bytes::u32_le(f.1), bytes::u32_le(f.2));
    let (p3, p4) = (stream::bool_bytes(f.3), stream::bool_bytes(f.4));
    stream::assoc(p3, p4, tail);
    stream::assoc(p2, p3 + p4, tail);
    stream::assoc(p1, p2 + (p3 + p4), tail);
    stream::assoc(p0, p1 + (p2 + (p3 + p4)), tail);
    stream::u32_round_trip(f.0, p1 + (p2 + (p3 + (p4 + tail))));
    stream::u32_round_trip(f.1, p2 + (p3 + (p4 + tail)));
    stream::u32_round_trip(f.2, p3 + (p4 + tail));
    stream::bool_round_trip(f.3, p4 + tail);
    stream::bool_round_trip(f.4, tail);
    assert(target_from(f.0, f.1, f.2, f.3, f.4) == Some(t));
}

/// Reading a wait gives back the one that was written, unless it holds a text
/// too long for its count.
pub proof fn wait_round_trip(w: SavedWait, tail: Seq<u8>)
    requires
        w.pending matches SavedValue::Text(s) ==> text::utf16(s).len() <= i32::MAX,
    ensures
        wait_of(wait_bytes(w) + tail) == Ok::<(SavedWait, Seq<u8>), WaitError>((w, tail)),
{
    let p0 = bytes::u32_le(WAIT_MARK as int);
    let p1 = stream::bool_bytes(w.waiting_for_key);
    let p2 = stream::bool_bytes(w.system_modal);
    let p3 = target_bytes(w.target);
    let p4 = value_bytes(w.pending);
    stream::assoc(p3, p4, tail);
    stream::assoc(p2, p3 + p4, tail);
    stream::assoc(p1, p2 + (p3 + p4), tail);
    stream::assoc(p0, p1 + (p2 + (p3 + p4)), tail);
    stream::u32_round_trip(WAIT_MARK as int, p1 + (p2 + (p3 + (p4 + tail))));
    stream::bool_round_trip(w.waiting_for_key, p2 + (p3 + (p4 + tail)));
    stream::bool_round_trip(w.system_modal, p3 + (p4 + tail));
    lemma_target_round_trip(w.target, p4 + tail);
    lemma_value_round_trip(w.pending, tail);
}

impl Default for VmWait {
    fn default() -> (w: VmWait)
        ensures
            w.idle(),
    {
        VmWait {
            waiting_for_key: false,
            system_modal: false,
            target: WaitTarget::Nothing,
            pending_value: None,
            native_returns: false,
            native_key: false,
        }
    }
}

impl VmWait {
    /// Nothing is waited for.
    pub open spec fn idle(&self) -> bool {
        &&& !self.waiting_for_key
        &&& !self.system_modal
        &&& self.target == WaitTarget::Nothing
        &&& self.pending_value is None
        &&& !self.native_returns
        &&& !self.native_key
    }

    pub open spec fn saved(&self) -> SavedWait {
        SavedWait {
            waiting_for_key: self.waiting_for_key,
            system_modal: self.system_modal,
            target: self.target,
            pending: saved_value(self.pending_value),
        }
    }

    /// The fields that starting a wait for something else leaves alone.
    pub open spec fn same_but_target(&self, other: &VmWait) -> bool {
        &&& self.waiting_for_key == other.waiting_for_key
        &&& self.system_modal == other.system_modal
        &&& self.pending_value == other.pending_value
        &&& self.native_returns == other.native_returns
        &&& self.native_key == other.native_key
    }

    /// The fields that taking the result leaves alone.
    pub open spec fn same_but_result(&self, other: &VmWait) -> bool {
        &&& self.waiting_for_key == other.waiting_for_key
        &&& self.system_modal == other.system_modal
        &&& self.target == other.target
        &&& self.native_returns == other.native_returns
        &&& self.native_key == other.native_key
    }

    pub fn clear(&mut self)
        ensures
            final(self).idle(),
    {
        self.waiting_for_key = false;
        self.system_modal = false;
        self.target = WaitTarget::Nothing;
        self.pending_value = None;
        self.native_returns = false;
        self.native_key = false;
    }

    pub fn wait_key(&mut self)
        ensures
            final(self).waiting_for_key,
            final(self).target == old(self).target,
            final(self).system_modal == old(self).system_modal,
            final(self).pending_value == old(self).pending_value,
            final(self).native_returns == old(self).native_returns,
            final(self).native_key == old(self).native_key,
    {
        self.waiting_for_key = true;
    }

    pub fn wait_system_modal(&mut self)
        ensures
            final(self).system_modal,
            final(self).target == old(self).target,
            final(self).waiting_for_key == old(self).waiting_for_key,
            final(self).pending_value == old(self).pending_value,
            final(self).native_returns == old(self).native_returns,
            final(self).native_key == old(self).native_key,
    {
        self.system_modal = true;
    }

    pub fn configure_native_return(&mut self, result: bool, key: bool)
        ensures
            final(self).native_returns == result,
            final(self).native_key == key,
            final(self).target == old(self).target,
            final(self).waiting_for_key == old(self).waiting_for_key,
            final(self).system_modal == old(self).system_modal,
            final(self).pending_value == old(self).pending_value,
    {
        self.native_returns = result;
        self.native_key = key;
    }

    pub fn wait_for(&mut self, target: WaitTarget)
        ensures
            final(self).target == target,
            final(self).same_but_target(old(self)),
    {
        self.target = target;
    }

    pub fn wait_ms(&mut self, ms: u64)
        ensures
            final(self).target == (WaitTarget::Time { ms, key: false }),
            final(self).same_but_target(old(self)),
    {
        self.target = WaitTarget::Time { ms, key: false };
    }

    pub fn wait_ms_key(&mut self, ms: u64)
        ensures
            final(self).target == (WaitTarget::Time { ms, key: true }),
            final(self).same_but_target(old(self)),
    {
        self.target = WaitTarget::Time { ms, key: true };
    }

    /// Takes the result that the wait has produced.
    pub fn take_native_result(&mut self) -> (r: Option<Value>)
        ensures
            r == old(self).pending_value,
            final(self).pending_value is None,
            final(self).target == old(self).target,
            final(self).waiting_for_key == old(self).waiting_for_key,
            final(self).system_modal == old(self).system_modal,
            final(self).native_returns == old(self).native_returns,
            final(self).native_key == old(self).native_key,
    {
        self.pending_value.take()
    }

    pub fn write_save_extension(&self, out: &mut Vec<u8>)
        ensures
            final(out)@ == old(out)@ + wait_bytes(self.saved()),
    {
        push_u32(out, WAIT_MARK);
        push_bool(out, self.waiting_for_key);
        push_bool(out, self.system_modal);
        write_target(out, self.target);
        write_value(out, &self.pending_value);
        proof {
            let o = old(out)@;
            let p0 = bytes::u32_le(WAIT_MARK as int);
            let p1 = stream::bool_bytes(self.waiting_for_key);
            let p2 = stream::bool_bytes(self.system_modal);
            let p3 = target_bytes(self.target);
            let p4 = value_bytes(self.saved().pending);
            stream::assoc(((o + p0) + p1) + p2, p3, p4);
            stream::assoc((o + p0) + p1, p2, p3 + p4);
            stream::assoc(o + p0, p1, p2 + (p3 + p4));
            stream::assoc(o, p0, p1 + (p2 + (p3 + p4)));
        }
    }
}

fn write_target(out: &mut Vec<u8>, target: WaitTarget)
    ensures
        final(out)@ == old(out)@ + target_bytes(target),
{
    let (kind, a, b, key, result): (u32, u32, u32, bool, bool) = match target {
        WaitTarget::Nothing => (0, 0, 0, false, false),
        WaitTarget::Time { ms, key } => (
            1,
            (ms % 0x1_0000_0000) as u32,
            (ms / 0x1_0000_0000) as u32,
            key,
            false,
        ),
        WaitTarget::Audio { sound, key, result } => {
            let (x, n): (u32, u32) = match sound {
                AudioWait::Bgm => (0, 0),
                AudioWait::BgmFade => (1, 0),
                AudioWait::KoeAny => (2, 0),
                AudioWait::PcmAny => (3, 0),
                AudioWait::PcmSlot(n) => (4, n as u32),
                AudioWait::PcmSlotFade(n) => (5, n as u32),
            };
            (2, x, n, key, result)
        },
        WaitTarget::PcmEvent { form, index, key, result } => (3, form, index, key, result),
        WaitTarget::Movie { key, result } => (4, 0, 0, key, result),
        WaitTarget::Wipe { key } => (5, 0, 0, key, false),
        WaitTarget::MessageReveal => (6, 0, 0, false, false),
    };
    proof {
        assert(target_fields(target) == (kind as int, a as int, b as int, key, result));
    }
    push_u32(out, kind);
    push_u32(out, a);
    push_u32(out, b);
    push_bool(out, key);
    push_bool(out, result);
    proof {
        let o = old(out)@;
        let (p0, p1) = (bytes::u32_le(kind as int), bytes::u32_le(a as int));
        let p2 = bytes::u32_le(b as int);
        let (p3, p4) = (stream::bool_bytes(key), stream::bool_bytes(result));
        stream::assoc(((o + p0) + p1) + p2, p3, p4);
        stream::assoc((o + p0) + p1, p2, p3 + p4);
        stream::assoc(o + p0, p1, p2 + (p3 + p4));
        stream::assoc(o, p0, p1 + (p2 + (p3 + p4)));
    }
}

fn write_value(out: &mut Vec<u8>, value: &Option<Value>)
    ensures
        final(out)@ == old(out)@ + value_bytes(saved_value(*value)),
{
    match value {
        Some(Value::Int(n)) => {
            push_u32(out, 1);
            push_u32(out, bytes::low_word(*n));
            push_u32(out, high_word(*n));
            proof {
                let o = old(out)@;
                let p0 = bytes::u32_le(1);
                let p1 = bytes::u32_le(*n as int % 0x1_0000_0000);
                let p2 = bytes::u32_le(*n as int / 0x1_0000_0000 % 0x1_0000_0000);
                stream::assoc(o, p0, p1);
                stream::assoc(o, p0 + p1, p2);
            }
        },
        Some(Value::Str(s)) => {
            push_u32(out, 2);
            push_str(out, s.as_str());
            proof {
                stream::assoc(old(out)@, bytes::u32_le(2), stream::string_bytes(s@));
            }
        },
        _ => {
            push_u32(out, 0);
        },
    }
}

/// The high 32 bits of `v`.
pub fn high_word(v: i64) -> (w: u32)
    ensures
        w == v as int / 0x1_0000_0000 % 0x1_0000_0000,
{
    let low: i64 = bytes::low_word(v) as i64;
    let base: i128 = v as i128 - low as i128;
    proof {
        assert(v as int == low + (v as int / 0x1_0000_0000) * 0x1_0000_0000);
    }
    let high: i64 = if base >= 0 {
        (base / 0x1_0000_0000) as i64
    } else {
        -(((-base) / 0x1_0000_0000) as i64)
    };
    bytes::low_word(high)
}

fn read_target(rd: &mut StreamReader) -> (r: Result<WaitTarget, WaitError>)
    requires
        old(rd).wf(),
    ensures
        final(rd).wf(),
        final(rd).data == old(rd).data,
        match (r, target_of(old(rd).rest())) {
            (Ok(t), Ok(p)) => t == p.0 && final(rd).rest() == p.1,
            (Err(a), Err(b)) => a == b,
            _ => false,
        },
{
    let kind: u32 = match rd.u32() {
        Ok(v) => v,
        Err(e) => {
            return Err(WaitError::Stream(e));
        },
    };
    let a: u32 = match rd.u32() {
        Ok(v) => v,
        Err(e) => {
            return Err(WaitError::Stream(e));
        },
    };
    let b: u32 = match rd.u32() {
        Ok(v) => v,
        Err(e) => {
            return Err(WaitError::Stream(e));
        },
    };
    let key: bool = match rd.bool() {
        Ok(v) => v,
        Err(e) => {
            return Err(WaitError::Stream(e));
        },
    };
    let result: bool = match rd.bool() {
        Ok(v) => v,
        Err(e) => {
            return Err(WaitError::Stream(e));
        },
    };
    if kind == 0 {
        Ok(WaitTarget::Nothing)
    } else if kind == 1 {
        Ok(WaitTarget::Time { ms: a as u64 + b as u64 * 0x1_0000_0000, key })
    } else if kind == 2 {
        let sound = if a == 0 {
            AudioWait::Bgm
        } else if a == 1 {
            AudioWait::BgmFade
        } else if a == 2 {
            AudioWait::KoeAny
        } else if a == 3 {
            AudioWait::PcmAny
        } else if a == 4 && b <= 255 {
            AudioWait::PcmSlot(b as u8)
        } else if a == 5 && b <= 255 {
            AudioWait::PcmSlotFade(b as u8)
        } else {
            return Err(WaitError::Unknown);
        };
        Ok(WaitTarget::Audio { sound, key, result })
    } else if kind == 3 {
        Ok(WaitTarget::PcmEvent { form: a, index: b, key, result })
    } else if kind == 4 {
        Ok(WaitTarget::Movie { key, result })
    } else if kind == 5 {
        Ok(WaitTarget::Wipe { key })
    } else if kind == 6 {
        Ok(WaitTarget::MessageReveal)
    } else {
        Err(WaitError::Unknown)
    }
}

/// The signed number of two words.
pub fn join_words(low: u32, high: u32) -> (v: i64)
    ensures
        v == joined(low as int, high as int),
{
    let v: i128 = low as i128 + high as i128 * 0x1_0000_0000;
    if v >= 0x8000_0000_0000_0000 {
        (v - 0x1_0000_0000_0000_0000) as i64
    } else {
        v as i64
    }
}

fn read_value(rd: &mut StreamReader) -> (r: Result<Option<Value>, WaitError>)
    requires
        old(rd).wf(),
    ensures
        final(rd).wf(),
        final(rd).data == old(rd).data,
        match (r, value_of(old(rd).rest())) {
            (Ok(v), Ok(p)) => saved_value(v) == p.0 && final(rd).rest() == p.1,
            (Err(a), Err(b)) => a == b,
            _ => false,
        },
{
    let kind: u32 = match rd.u32() {
        Ok(v) => v,
        Err(e) => {
            return Err(WaitError::Stream(e));
        },
    };
    if kind == 0 {
        Ok(None)
    } else if kind == 1 {
        let low: u32 = match rd.u32() {
            Ok(v) => v,
            Err(e) => {
                return Err(WaitError::Stream(e));
            },
        };
        let high: u32 = match rd.u32() {
            Ok(v) => v,
            Err(e) => {
                return Err(WaitError::Stream(e));
            },
        };
        Ok(Some(Value::Int(join_words(low, high))))
    } else if kind == 2 {
        match rd.string() {
            Ok(s) => Ok(Some(Value::Str(s))),
            Err(e) => Err(WaitError::Stream(e)),
        }
    } else {
        Err(WaitError::Unknown)
    }
}

/// Reads the wait that begins at the reader's place.
pub fn read_save_extension(rd: &mut StreamReader) -> (r: Result<VmWait, WaitError>)
    requires
        old(rd).wf(),
    ensures
        final(rd).wf(),
        final(rd).data == old(rd).data,
        match (r, wait_of(old(rd).rest())) {
            (Ok(w), Ok(p)) => {
                &&& w.saved() == p.0
                &&& !w.native_returns
                &&& !w.native_key
                &&& final(rd).rest() == p.1
            },
            (Err(a), Err(b)) => a == b,
            _ => false,
        },
{
    match rd.u32() {
        Ok(mark) => {
            if mark != WAIT_MARK {
                return Err(WaitError::Missing);
            }
        },
        Err(_) => {
            return Err(WaitError::Missing);
        },
    }
    let key: bool = match rd.bool() {
        Ok(v) => v,
        Err(e) => {
            return Err(WaitError::Stream(e));
        },
    };
    let modal: bool = match rd.bool() {
        Ok(v) => v,
        Err(e) => {
            return Err(WaitError::Stream(e));
        },
    };
    let target = match read_target(rd) {
        Ok(t) => t,
        Err(e) => {
            return Err(e);
        },
    };
    let pending_value = match read_value(rd) {
        Ok(v) => v,
        Err(e) => {
            return Err(e);
        },
    };
    Ok(
        VmWait {
            waiting_for_key: key,
            system_modal: modal,
            target,
            pending_value,
            native_returns: false,
            native_key: false,
        },
    )
}

/// Each thing that can be waited for is stored under a number of its own: a time as its lower
/// and its higher word, a sound by its kind and its slot, an event by its form and its place.
pub proof fn waits_have_their_numbers(kind: int, a: int, b: int, key: bool, result: bool)
    requires
        0 <= a <= u32::MAX,
        0 <= b <= u32::MAX,
    ensures
        target_from(kind, a, b, key, result) matches Some(t) ==> {
            &&& kind == 0 <==> t is Nothing
            &&& kind == 1 <==> t is Time
            &&& kind == 2 <==> t is Audio
            &&& kind == 3 <==> t is PcmEvent
            &&& kind == 4 <==> t is Movie
            &&& kind == 5 <==> t is Wipe
            &&& kind == 6 <==> t is MessageReveal
            &&& (t matches WaitTarget::Time { ms, key: k } ==> ms == a + b * 0x1_0000_0000 && k
                == key)
            &&& (t matches WaitTarget::PcmEvent { form, index, key: k, result: r } ==> form == a
                && index == b && k == key && r == result)
            &&& (t matches WaitTarget::Movie { key: k, result: r } ==> k == key && r == result)
            &&& (t matches WaitTarget::Wipe { key: k } ==> k == key)
            &&& (t matches WaitTarget::Audio { sound, key: k, result: r } ==> {
                &&& k == key
                &&& r == result
                &&& a == 0 <==> sound is Bgm
                &&& a == 1 <==> sound is BgmFade
                &&& a == 2 <==> sound is KoeAny
                &&& a == 3 <==> sound is PcmAny
                &&& a == 4 ==> sound == AudioWait::PcmSlot(b as u8) && b <= 255
                &&& a == 5 ==> sound == AudioWait::PcmSlotFade(b as u8) && b <= 255
            })
        },
        target_from(kind, a, b, key, result) is None <==> !(0 <= kind <= 6) || (kind == 2 && !(a
            <= 3 || (a <= 5 && b <= 255))),
{
}

/// A stored wait begins with its mark. A byte each tells whether a key and whether a box is
/// waited for, and what else is waited for stands behind them: its number, two words, and a byte
/// each for whether a key ends it and whether it leaves a result.
pub proof fn stored_waits_begin_with_their_mark(b: Seq<u8>)
    requires
        wait_of(b) is Ok,
    ensures
        b.len() >= 20,
        bytes::u32_at(b, 0) == WAIT_MARK,
        wait_of(b)->Ok_0.0.waiting_for_key == (b[4] != 0),
        wait_of(b)->Ok_0.0.system_modal == (b[5] != 0),
        target_from(
            bytes::u32_at(b, 6),
            bytes::u32_at(b, 10),
            bytes::u32_at(b, 14),
            b[18] != 0,
            b[19] != 0,
        ) == Some(wait_of(b)->Ok_0.0.target),
{
    reveal(stream::u32_of);
    reveal(stream::bool_of);
    assert(b.skip(4).skip(1) =~= b.skip(5));
    assert(b.skip(5).skip(1) =~= b.skip(6));
    assert(b.skip(6).skip(4) =~= b.skip(10));
    assert(b.skip(10).skip(4) =~= b.skip(14));
    assert(b.skip(14).skip(4) =~= b.skip(18));
    assert(b.skip(18).skip(1) =~= b.skip(19));
}

} // verus!
