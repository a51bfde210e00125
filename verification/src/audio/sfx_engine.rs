//! Slots in which sounds play.
//!
//! A slot knows when its sound ends, whether it is paused or fading out, and
//! when it goes on. The backend that makes the sound is told what to do by
//! lists of orders. Times are nanoseconds from a fixed start.

use vstd::prelude::*;
use crate::assets;
use crate::assets::lower_extension;
use crate::audio::wav;
use crate::audio::wav::wav_duration_ms;
use crate::number_text;
use crate::number_text::decimal_i64;
use crate::paths;
use crate::paths::{join_path, path_has_extension, with_extension};
use crate::text::same_text;
use crate::text_parts::join;

verus! {

/// An order to the backend on the sound of a slot. A fade of 0 is the
/// backend's own shortest one.
#[derive(Debug, Clone, Copy, PartialEq, Eq, Structural)]
pub enum SoundAction {
    /// Decode the new sound and start it.
    Start { looping: bool },
    /// Set the volume to zero at once.
    Mute,
    /// Set the volume; 255 is full.
    SetVolume { raw: u8, fade_ms: i64 },
    Resume,
    Pause { fade_ms: i64 },
    Stop { fade_ms: i64 },
    /// Let the sound go.
    Release,
}

/// The shared track that sounds are mixed into.
#[derive(Debug, Clone, Copy, PartialEq, Eq, Structural)]
pub enum TrackKind {
    Pcm,
    Koe,
    Se,
}

/// An order to set the volume of a track.
#[derive(Debug, Clone, Copy, PartialEq, Eq, Structural)]
pub struct TrackVolume {
    pub track: TrackKind,
    pub raw: u8,
    pub fade_ms: Option<i64>,
}

#[derive(Debug, Clone, Copy, PartialEq, Eq, Structural)]
pub enum SfxError {
    SlotOutOfRange,
    NotFound,
    UnsupportedExtension,
}

/// How long a sound plays whose file does not say.
pub const DEFAULT_DURATION_MS: u64 = 2000;

/// A slot.
#[derive(Debug)]
pub struct Slot {
    /// Whether the backend holds a sound.
    pub has_handle: bool,
    /// When a sound that does not loop ends.
    pub until: Option<u128>,
    pub duration_ms: Option<u64>,
    pub looping: bool,
    pub last_name: Option<String>,
    /// When the pause takes full effect.
    pub paused_at: Option<u128>,
    /// The sound waits for its first start.
    pub ready_only: bool,
    /// When the fade to a stop is over.
    pub fade_until: Option<u128>,
    /// When a delayed start is due.
    pub resume_at: Option<u128>,
    pub resume_fade_ms: i64,
    pub volume_raw: u8,
}

/// A later time, as far as the clock goes.
pub open spec fn plus(t: u128, d: int) -> u128 {
    if t + d > u128::MAX {
        u128::MAX
    } else {
        (t + d) as u128
    }
}

/// The time `ms` milliseconds after `now`.
pub open spec fn deadline(now: u128, ms: int) -> u128 {
    plus(now, ms * 1_000_000)
}

fn later(t: u128, d: u128) -> (r: u128)
    ensures
        r == plus(t, d as int),
{
    if d > u128::MAX - t {
        u128::MAX
    } else {
        t + d
    }
}

fn after_ms(now: u128, ms: u64) -> (r: u128)
    ensures
        r == deadline(now, ms as int),
{
    later(now, ms as u128 * 1_000_000)
}

pub open spec fn reached(at: Option<u128>, now: u128) -> bool {
    at matches Some(t) && now >= t
}

fn is_reached(at: Option<u128>, now: u128) -> (r: bool)
    ensures
        r == reached(at, now),
{
    match at {
        Some(t) => now >= t,
        None => false,
    }
}

pub open spec fn opt_name(s: Option<String>) -> Option<Seq<char>> {
    match s {
        Some(t) => Some(t@),
        None => None,
    }
}

/// An empty slot with the volume kept.
pub open spec fn cleared(s: Slot) -> Slot {
    Slot {
        has_handle: false,
        until: None,
        duration_ms: None,
        looping: false,
        last_name: None,
        paused_at: None,
        ready_only: false,
        fade_until: None,
        resume_at: None,
        resume_fade_ms: 0,
        volume_raw: s.volume_raw,
    }
}

pub open spec fn release_orders(s: Slot) -> Seq<SoundAction> {
    if s.has_handle {
        seq![SoundAction::Release]
    } else {
        Seq::empty()
    }
}

pub open spec fn can_resume(s: Slot) -> bool {
    s.last_name is Some && s.fade_until is None
}

/// The slot after it went on. A sound that was only ready starts; one that was
/// paused ends later by the time that it was silent.
pub open spec fn resumed(s: Slot, now: u128) -> Slot {
    if !can_resume(s) {
        Slot { resume_at: None, resume_fade_ms: 0, ..s }
    } else {
        Slot {
            until: if s.ready_only {
                if s.looping {
                    None
                } else {
                    Some(
                        deadline(
                            now,
                            match s.duration_ms {
                                Some(ms) => ms as int,
                                None => DEFAULT_DURATION_MS as int,
                            },
                        ),
                    )
                }
            } else {
                match (s.paused_at, s.until) {
                    (Some(p), Some(u)) => Some(
                        plus(
                            u,
                            if p > now {
                                0
                            } else {
                                now - p
                            },
                        ),
                    ),
                    _ => s.until,
                }
            },
            paused_at: None,
            ready_only: false,
            fade_until: None,
            resume_at: None,
            resume_fade_ms: 0,
            ..s
        }
    }
}

pub open spec fn resume_orders(s: Slot, fade_ms: i64) -> Seq<SoundAction> {
    if !can_resume(s) || !s.has_handle {
        Seq::empty()
    } else if fade_ms > 0 {
        seq![
            SoundAction::Mute,
            SoundAction::Resume,
            SoundAction::SetVolume { raw: s.volume_raw, fade_ms },
        ]
    } else {
        seq![SoundAction::Resume, SoundAction::SetVolume { raw: s.volume_raw, fade_ms: 0 }]
    }
}

/// The slot after a delayed start that is due.
pub open spec fn started(s: Slot, now: u128) -> Slot {
    if reached(s.resume_at, now) {
        resumed(s, now)
    } else {
        s
    }
}

pub open spec fn start_orders(s: Slot, now: u128) -> Seq<SoundAction> {
    if reached(s.resume_at, now) {
        resume_orders(s, s.resume_fade_ms)
    } else {
        Seq::empty()
    }
}

/// Whether the sound of a slot has played to its end.
pub open spec fn ended(s: Slot, now: u128) -> bool {
    !s.looping && !s.ready_only && !reached(s.paused_at, now) && reached(s.until, now)
}

/// The slot as it is at `now`.
pub open spec fn ticked(s: Slot, now: u128) -> Slot {
    if reached(s.fade_until, now) || ended(started(s, now), now) {
        cleared(s)
    } else {
        started(s, now)
    }
}

pub open spec fn tick_orders(s: Slot, now: u128) -> Seq<SoundAction> {
    if reached(s.fade_until, now) {
        release_orders(s)
    } else if ended(started(s, now), now) {
        start_orders(s, now) + release_orders(s)
    } else {
        start_orders(s, now)
    }
}

/// Whether a slot is heard.
pub open spec fn playing(s: Slot) -> bool {
    &&& s.last_name is Some
    &&& s.fade_until is None
    &&& !s.ready_only
    &&& s.paused_at is None
    &&& s.resume_at is None
    &&& s.looping || s.until is Some
}

/// A fade time that is not given, or is negative, is 0.
pub open spec fn fade_or_zero(fade: Option<i64>) -> i64 {
    match fade {
        Some(ms) => if ms < 0 {
            0
        } else {
            ms
        },
        None => 0,
    }
}

/// The slot after a stop.
pub open spec fn stopped(s: Slot, fade: Option<i64>, now: u128) -> Slot {
    let t = ticked(s, now);
    if fade_or_zero(fade) == 0 || t.last_name is None {
        cleared(t)
    } else {
        Slot {
            until: None,
            paused_at: None,
            ready_only: false,
            resume_at: None,
            resume_fade_ms: 0,
            fade_until: Some(deadline(now, fade_or_zero(fade) as int)),
            ..t
        }
    }
}

pub open spec fn stop_orders(s: Slot, fade: Option<i64>, now: u128) -> Seq<SoundAction> {
    let t = ticked(s, now);
    let ms = fade_or_zero(fade);
    tick_orders(s, now) + if !t.has_handle {
        Seq::empty()
    } else if ms == 0 || t.last_name is None {
        seq![SoundAction::Stop { fade_ms: 0 }, SoundAction::Release]
    } else {
        seq![SoundAction::Stop { fade_ms: ms }]
    }
}

pub open spec fn can_pause(s: Slot) -> bool {
    s.last_name is Some && !s.ready_only && s.paused_at is None && s.resume_at is None
}

/// The slot after a pause.
pub open spec fn paused(s: Slot, fade: Option<i64>, now: u128) -> Slot {
    let t = ticked(s, now);
    if can_pause(t) {
        Slot {
            paused_at: Some(deadline(now, fade_or_zero(fade) as int)),
            resume_at: None,
            resume_fade_ms: 0,
            ..t
        }
    } else {
        t
    }
}

pub open spec fn pause_orders(s: Slot, fade: Option<i64>, now: u128) -> Seq<SoundAction> {
    let t = ticked(s, now);
    tick_orders(s, now) + if can_pause(t) && t.has_handle {
        seq![SoundAction::Pause { fade_ms: fade_or_zero(fade) }]
    } else {
        Seq::empty()
    }
}

pub open spec fn waits(s: Slot) -> bool {
    can_resume(s) && (s.ready_only || s.paused_at is Some)
}

pub open spec fn not_negative(v: i64) -> i64 {
    if v < 0 {
        0
    } else {
        v
    }
}

/// The slot after it was told to go on after a delay.
pub open spec fn continued(s: Slot, fade_ms: i64, delay_ms: i64, now: u128) -> Slot {
    let t = ticked(s, now);
    if !waits(t) {
        t
    } else if delay_ms <= 0 {
        resumed(t, now)
    } else {
        Slot {
            resume_at: Some(deadline(now, delay_ms as int)),
            resume_fade_ms: not_negative(fade_ms),
            ..t
        }
    }
}

pub open spec fn continue_orders(s: Slot, fade_ms: i64, delay_ms: i64, now: u128) -> Seq<
    SoundAction,
> {
    let t = ticked(s, now);
    tick_orders(s, now) + if waits(t) && delay_ms <= 0 {
        resume_orders(t, not_negative(fade_ms))
    } else {
        Seq::empty()
    }
}

/// Whether the slot `a` is the slot `s` with a new sound.
pub open spec fn loaded(
    s: Slot,
    a: Slot,
    name: Seq<char>,
    wav: Seq<u8>,
    looping: bool,
    ready: bool,
    audible: bool,
    now: u128,
) -> bool {
    let ms = match wav::duration(wav) {
        Some(d) => d as u64,
        None => DEFAULT_DURATION_MS,
    };
    &&& opt_name(a.last_name) == Some(name)
    &&& a == (Slot {
        has_handle: audible,
        until: if ready || looping {
            None
        } else {
            Some(deadline(now, ms as int))
        },
        duration_ms: Some(ms),
        looping,
        last_name: a.last_name,
        paused_at: if ready {
            Some(now)
        } else {
            None
        },
        ready_only: ready,
        fade_until: None,
        resume_at: None,
        resume_fade_ms: 0,
        volume_raw: s.volume_raw,
    })
}

pub open spec fn load_orders(
    s: Slot,
    looping: bool,
    fade_in_ms: i64,
    ready: bool,
    audible: bool,
) -> Seq<SoundAction> {
    if !audible {
        Seq::empty()
    } else if ready {
        seq![
            SoundAction::Start { looping },
            SoundAction::SetVolume { raw: s.volume_raw, fade_ms: 0 },
            SoundAction::Pause { fade_ms: 0 },
        ]
    } else if fade_in_ms > 0 {
        seq![
            SoundAction::Start { looping },
            SoundAction::Mute,
            SoundAction::SetVolume { raw: s.volume_raw, fade_ms: fade_in_ms },
        ]
    } else {
        seq![
            SoundAction::Start { looping },
            SoundAction::SetVolume { raw: s.volume_raw, fade_ms: 0 },
        ]
    }
}

fn clamp_fade(fade: Option<i64>) -> (r: i64)
    ensures
        r == fade_or_zero(fade),
        r >= 0,
{
    match fade {
        Some(ms) => if ms < 0 {
            0
        } else {
            ms
        },
        None => 0,
    }
}

impl Slot {
    pub fn new() -> (s: Slot)
        ensures
            s == cleared(s),
            s.volume_raw == 255,
    {
        Slot {
            has_handle: false,
            until: None,
            duration_ms: None,
            looping: false,
            last_name: None,
            paused_at: None,
            ready_only: false,
            fade_until: None,
            resume_at: None,
            resume_fade_ms: 0,
            volume_raw: 255,
        }
    }

    fn clear(&mut self, out: &mut Vec<SoundAction>)
        ensures
            *final(self) == cleared(*old(self)),
            final(out)@ == old(out)@ + release_orders(*old(self)),
    {
        if self.has_handle {
            out.push(SoundAction::Release);
        }
        proof {
            assert(out@ =~= old(out)@ + release_orders(*old(self)));
        }
        self.has_handle = false;
        self.until = None;
        self.duration_ms = None;
        self.looping = false;
        self.last_name = None;
        self.paused_at = None;
        self.ready_only = false;
        self.fade_until = None;
        self.resume_at = None;
        self.resume_fade_ms = 0;
    }

    fn resume_now(&mut self, fade_ms: i64, now: u128, out: &mut Vec<SoundAction>)
        ensures
            *final(self) == resumed(*old(self), now),
            final(out)@ == old(out)@ + resume_orders(*old(self), fade_ms),
    {
        if self.last_name.is_none() || self.fade_until.is_some() {
            self.resume_at = None;
            self.resume_fade_ms = 0;
            proof {
                assert(out@ =~= old(out)@ + resume_orders(*old(self), fade_ms));
            }
            return;
        }
        if self.has_handle {
            if fade_ms > 0 {
                out.push(SoundAction::Mute);
                out.push(SoundAction::Resume);
                out.push(SoundAction::SetVolume { raw: self.volume_raw, fade_ms });
            } else {
                out.push(SoundAction::Resume);
                out.push(SoundAction::SetVolume { raw: self.volume_raw, fade_ms: 0 });
            }
        }
        proof {
            assert(out@ =~= old(out)@ + resume_orders(*old(self), fade_ms));
        }
        if self.ready_only {
            if self.looping {
                self.until = None;
            } else {
                let ms: u64 = match self.duration_ms {
                    Some(ms) => ms,
                    None => DEFAULT_DURATION_MS,
                };
                self.until = Some(after_ms(now, ms));
            }
        } else {
            match self.paused_at {
                Some(p) => {
                    let silent: u128 = if p > now {
                        0
                    } else {
                        now - p
                    };
                    match self.until {
                        Some(u) => {
                            self.until = Some(later(u, silent));
                        },
                        None => {},
                    }
                },
                None => {},
            }
        }
        self.paused_at = None;
        self.ready_only = false;
        self.fade_until = None;
        self.resume_at = None;
        self.resume_fade_ms = 0;
    }

    fn tick(&mut self, now: u128, out: &mut Vec<SoundAction>)
        ensures
            *final(self) == ticked(*old(self), now),
            final(out)@ == old(out)@ + tick_orders(*old(self), now),
    {
        if is_reached(self.fade_until, now) {
            self.clear(out);
            return;
        }
        let ghost first = out@;
        if is_reached(self.resume_at, now) {
            let fade: i64 = self.resume_fade_ms;
            self.resume_now(fade, now, out);
        } else {
            proof {
                assert(out@ =~= first + start_orders(*old(self), now));
            }
        }
        if !self.looping && !self.ready_only && !is_reached(self.paused_at, now) && is_reached(
            self.until,
            now,
        ) {
            self.clear(out);
            proof {
                assert(out@ =~= first + tick_orders(*old(self), now));
            }
        }
    }

    fn stop(&mut self, fade: Option<i64>, now: u128, out: &mut Vec<SoundAction>)
        ensures
            *final(self) == stopped(*old(self), fade, now),
            final(out)@ == old(out)@ + stop_orders(*old(self), fade, now),
    {
        let ghost first = out@;
        self.tick(now, out);
        let ms: i64 = clamp_fade(fade);
        if ms == 0 || self.last_name.is_none() {
            if self.has_handle {
                out.push(SoundAction::Stop { fade_ms: 0 });
            }
            self.clear(out);
            proof {
                assert(out@ =~= first + stop_orders(*old(self), fade, now));
            }
            return;
        }
        if self.has_handle {
            out.push(SoundAction::Stop { fade_ms: ms });
        }
        proof {
            assert(out@ =~= first + stop_orders(*old(self), fade, now));
        }
        self.until = None;
        self.paused_at = None;
        self.ready_only = false;
        self.resume_at = None;
        self.resume_fade_ms = 0;
        self.fade_until = Some(after_ms(now, ms as u64));
    }

    fn is_heard(&self) -> (r: bool)
        ensures
            r == playing(*self),
    {
        self.last_name.is_some() && self.fade_until.is_none() && !self.ready_only
            && self.paused_at.is_none() && self.resume_at.is_none() && (self.looping
            || self.until.is_some())
    }
}

// The slots of an engine.

/// Orders on the sound of a slot.
pub open spec fn on_slot(orders: Seq<SoundAction>, slot: usize) -> Seq<(usize, SoundAction)> {
    orders.map_values(|a: SoundAction| (slot, a))
}

/// The first `n` slots as they are at `now`, and the others as they were.
pub open spec fn ticked_slots(slots: Seq<Slot>, now: u128, n: int) -> Seq<Slot> {
    Seq::new(
        slots.len(),
        |i: int| {
            if i < n {
                ticked(slots[i], now)
            } else {
                slots[i]
            }
        },
    )
}

pub open spec fn ticked_orders(slots: Seq<Slot>, now: u128, n: int) -> Seq<(usize, SoundAction)>
    decreases n,
{
    if n <= 0 {
        Seq::empty()
    } else {
        ticked_orders(slots, now, n - 1) + on_slot(tick_orders(slots[n - 1], now), (n - 1) as usize)
    }
}

pub open spec fn stopped_slots(slots: Seq<Slot>, fade: Option<i64>, now: u128, n: int) -> Seq<
    Slot,
> {
    Seq::new(
        slots.len(),
        |i: int| {
            if i < n {
                stopped(slots[i], fade, now)
            } else {
                slots[i]
            }
        },
    )
}

pub open spec fn stopped_orders(slots: Seq<Slot>, fade: Option<i64>, now: u128, n: int) -> Seq<
    (usize, SoundAction),
>
    decreases n,
{
    if n <= 0 {
        Seq::empty()
    } else {
        stopped_orders(slots, fade, now, n - 1) + on_slot(
            stop_orders(slots[n - 1], fade, now),
            (n - 1) as usize,
        )
    }
}

/// How many slots come before the first one that plays at `now`.
pub open spec fn silent_front(slots: Seq<Slot>, now: u128) -> int
    decreases slots.len(),
{
    if slots.len() == 0 || playing(ticked(slots[0], now)) {
        0
    } else {
        1 + silent_front(slots.drop_first(), now)
    }
}

fn push_orders(out: &mut Vec<(usize, SoundAction)>, orders: &Vec<SoundAction>, slot: usize)
    ensures
        final(out)@ == old(out)@ + on_slot(orders@, slot),
{
    let ghost first = out@;
    let mut i: usize = 0;
    proof {
        assert(first + on_slot(orders@.take(0), slot) =~= first);
    }
    while i < orders.len()
        invariant
            i <= orders@.len(),
            out@ == first + on_slot(orders@.take(i as int), slot),
        decreases orders@.len() - i,
    {
        out.push((slot, orders[i]));
        i = i + 1;
        proof {
            assert(out@ =~= first + on_slot(orders@.take(i as int), slot));
        }
    }
    proof {
        assert(orders@.take(i as int) =~= orders@);
    }
}

/// The slots of one kind of sound.
#[derive(Debug)]
pub struct SfxEngine {
    pub project_dir: String,
    pub sub_dir: String,
    pub volume_raw: u8,
    pub track_kind: TrackKind,
    pub slots: Vec<Slot>,
}

/// Whether only slots have changed.
pub open spec fn only_slots(before: SfxEngine, after: SfxEngine) -> bool {
    after == (SfxEngine { slots: after.slots, ..before })
}

/// Whether an engine is new: all slots are empty and all volumes full.
pub open spec fn fresh(
    e: SfxEngine,
    project_dir: Seq<char>,
    sub_dir: Seq<char>,
    track_kind: TrackKind,
    slot_cnt: int,
) -> bool {
    &&& e.project_dir@ == project_dir
    &&& e.sub_dir@ == sub_dir
    &&& e.volume_raw == 255
    &&& e.track_kind == track_kind
    &&& e.slots@.len() == slot_cnt
    &&& forall|i: int|
        0 <= i < slot_cnt ==> (#[trigger] e.slots@[i]) == cleared(e.slots@[i])
            && e.slots@[i].volume_raw == 255
}

/// Whether every slot was brought up to date.
pub open spec fn all_ticked(
    before: SfxEngine,
    after: SfxEngine,
    now: u128,
    out: Seq<(usize, SoundAction)>,
) -> bool {
    &&& only_slots(before, after)
    &&& after.slots@ == ticked_slots(before.slots@, now, before.slots@.len() as int)
    &&& out == ticked_orders(before.slots@, now, before.slots@.len() as int)
}

/// Whether it was asked if any slot plays.
pub open spec fn any_asked(
    before: SfxEngine,
    after: SfxEngine,
    now: u128,
    heard: bool,
    out: Seq<(usize, SoundAction)>,
) -> bool {
    &&& only_slots(before, after)
    &&& ({
        let before = before.slots@;
        let k = silent_front(before, now);
        &&& heard == (k < before.len())
        &&& after.slots@ == ticked_slots(before, now, k + 1)
        &&& out == ticked_orders(
            before,
            now,
            if k < before.len() {
                k + 1
            } else {
                before.len() as int
            },
        )
    })
}

/// Whether it was asked if a slot plays.
pub open spec fn playing_asked(
    before: SfxEngine,
    after: SfxEngine,
    slot: usize,
    now: u128,
    heard: bool,
    out: Seq<SoundAction>,
) -> bool {
    &&& only_slots(before, after)
    &&& if slot < before.slots@.len() {
        let s = before.slots@[slot as int];
        &&& after.slots@ == before.slots@.update(slot as int, ticked(s, now))
        &&& heard == playing(ticked(s, now))
        &&& out == tick_orders(s, now)
    } else {
        after == before && !heard && out == Seq::<SoundAction>::empty()
    }
}

/// Whether it was asked if a slot fades out.
pub open spec fn fading_asked(
    before: SfxEngine,
    after: SfxEngine,
    slot: usize,
    now: u128,
    fading: bool,
    out: Seq<SoundAction>,
) -> bool {
    &&& only_slots(before, after)
    &&& if slot < before.slots@.len() {
        let s = before.slots@[slot as int];
        &&& after.slots@ == before.slots@.update(slot as int, ticked(s, now))
        &&& fading == (ticked(s, now).fade_until is Some)
        &&& out == tick_orders(s, now)
    } else {
        after == before && !fading && out == Seq::<SoundAction>::empty()
    }
}

/// Whether a slot was stopped.
pub open spec fn slot_stopped(
    before: SfxEngine,
    after: SfxEngine,
    slot: usize,
    fade_time_ms: Option<i64>,
    now: u128,
    out: Seq<SoundAction>,
) -> bool {
    &&& only_slots(before, after)
    &&& if slot < before.slots@.len() {
        let s = before.slots@[slot as int];
        &&& after.slots@ == before.slots@.update(
            slot as int,
            stopped(s, fade_time_ms, now),
        )
        &&& out == stop_orders(s, fade_time_ms, now)
    } else {
        after == before && out == Seq::<SoundAction>::empty()
    }
}

/// Whether every slot was stopped.
pub open spec fn all_stopped(
    before: SfxEngine,
    after: SfxEngine,
    fade_time_ms: Option<i64>,
    now: u128,
    out: Seq<(usize, SoundAction)>,
) -> bool {
    &&& only_slots(before, after)
    &&& after.slots@ == stopped_slots(
        before.slots@,
        fade_time_ms,
        now,
        before.slots@.len() as int,
    )
    &&& out == stopped_orders(
        before.slots@,
        fade_time_ms,
        now,
        before.slots@.len() as int,
    )
}

/// Whether a sound was put into a slot, or the slot does not exist.
pub open spec fn slot_played(
    before: SfxEngine,
    after: SfxEngine,
    slot: usize,
    name: Seq<char>,
    wav: Seq<u8>,
    loop_flag: bool,
    fade_in_ms: i64,
    ready_only: bool,
    audible: bool,
    now: u128,
    r: Result<Vec<SoundAction>, SfxError>,
) -> bool {
    &&& only_slots(before, after)
    &&& match r {
        Ok(out) => {
            let s = before.slots@[slot as int];
            &&& slot < before.slots@.len()
            &&& after.slots@ == before.slots@.update(
                slot as int,
                after.slots@[slot as int],
            )
            &&& loaded(
                s,
                after.slots@[slot as int],
                name,
                wav,
                loop_flag,
                ready_only,
                audible,
                now,
            )
            &&& out@ == stop_orders(s, None, now) + load_orders(
                s,
                loop_flag,
                fade_in_ms,
                ready_only,
                audible,
            )
        },
        Err(e) => e == SfxError::SlotOutOfRange && slot >= before.slots@.len()
            && after == before,
    }
}

/// Whether the volume of a slot was set.
pub open spec fn slot_volume_set(
    before: SfxEngine,
    after: SfxEngine,
    slot: usize,
    volume_raw: u8,
    fade_ms: i64,
    out: Seq<SoundAction>,
) -> bool {
    &&& only_slots(before, after)
    &&& if slot < before.slots@.len() {
        let s = before.slots@[slot as int];
        &&& after.slots@ == before.slots@.update(
            slot as int,
            Slot { volume_raw, ..s },
        )
        &&& out == (if s.has_handle {
            seq![
                SoundAction::SetVolume { raw: volume_raw, fade_ms: not_negative(fade_ms) },
            ]
        } else {
            Seq::empty()
        })
    } else {
        after == before && out == Seq::<SoundAction>::empty()
    }
}

/// Whether a slot was paused.
pub open spec fn slot_paused(
    before: SfxEngine,
    after: SfxEngine,
    slot: usize,
    fade_time_ms: Option<i64>,
    now: u128,
    out: Seq<SoundAction>,
) -> bool {
    &&& only_slots(before, after)
    &&& if slot < before.slots@.len() {
        let s = before.slots@[slot as int];
        &&& after.slots@ == before.slots@.update(
            slot as int,
            paused(s, fade_time_ms, now),
        )
        &&& out == pause_orders(s, fade_time_ms, now)
    } else {
        after == before && out == Seq::<SoundAction>::empty()
    }
}

/// Whether a slot was told to go on.
pub open spec fn slot_resumed(
    before: SfxEngine,
    after: SfxEngine,
    slot: usize,
    fade_ms: i64,
    delay_ms: i64,
    now: u128,
    out: Seq<SoundAction>,
) -> bool {
    &&& only_slots(before, after)
    &&& if slot < before.slots@.len() {
        let s = before.slots@[slot as int];
        &&& after.slots@ == before.slots@.update(
            slot as int,
            continued(s, fade_ms, delay_ms, now),
        )
        &&& out == continue_orders(s, fade_ms, delay_ms, now)
    } else {
        after == before && out == Seq::<SoundAction>::empty()
    }
}

impl SfxEngine {
    pub fn new(project_dir: &str, sub_dir: &str, track_kind: TrackKind, slot_cnt: usize) -> (e:
        SfxEngine)
        ensures
            fresh(e, project_dir@, sub_dir@, track_kind, slot_cnt as int),
    {
        let mut slots: Vec<Slot> = Vec::new();
        let mut i: usize = 0;
        while i < slot_cnt
            invariant
                i <= slot_cnt,
                slots@.len() == i,
                forall|k: int|
                    0 <= k < i ==> {
                        &&& (#[trigger] slots@[k]) == cleared(slots@[k])
                        &&& slots@[k].volume_raw == 255
                    },
            decreases slot_cnt - i,
        {
            slots.push(Slot::new());
            i = i + 1;
        }
        SfxEngine {
            project_dir: project_dir.to_owned(),
            sub_dir: sub_dir.to_owned(),
            volume_raw: 255,
            track_kind,
            slots,
        }
    }

    pub fn slot_cnt(&self) -> (n: usize)
        ensures
            n == self.slots@.len(),
    {
        self.slots.len()
    }

    pub fn volume_raw(&self) -> (v: u8)
        ensures
            v == self.volume_raw,
    {
        self.volume_raw
    }

    pub fn set_volume_raw(&mut self, volume_raw: u8) -> (order: TrackVolume)
        ensures
            *final(self) == (SfxEngine { volume_raw, ..*old(self) }),
            order == (TrackVolume { track: old(self).track_kind, raw: volume_raw, fade_ms: None }),
    {
        self.volume_raw = volume_raw;
        TrackVolume { track: self.track_kind, raw: volume_raw, fade_ms: None }
    }

    pub fn set_volume_raw_fade(&mut self, volume_raw: u8, fade_ms: i64) -> (order: TrackVolume)
        ensures
            *final(self) == (SfxEngine { volume_raw, ..*old(self) }),
            order == (TrackVolume {
                track: old(self).track_kind,
                raw: volume_raw,
                fade_ms: Some(fade_ms),
            }),
    {
        self.volume_raw = volume_raw;
        TrackVolume { track: self.track_kind, raw: volume_raw, fade_ms: Some(fade_ms) }
    }

    /// Brings every slot up to date.
    pub fn tick(&mut self, now: u128) -> (out: Vec<(usize, SoundAction)>)
        ensures
            all_ticked(*old(self), *final(self), now, out@),
    {
        let mut out: Vec<(usize, SoundAction)> = Vec::new();
        let ghost before = self.slots@;
        let n: usize = self.slots.len();
        let mut i: usize = 0;
        proof {
            assert(self.slots@ =~= ticked_slots(before, now, 0));
        }
        while i < n
            invariant
                i <= n,
                n == before.len(),
                before == old(self).slots@,
                only_slots(*old(self), *self),
                self.slots@ == ticked_slots(before, now, i as int),
                out@ == ticked_orders(before, now, i as int),
            decreases n - i,
        {
            let mut orders: Vec<SoundAction> = Vec::new();
            let s = &mut self.slots[i];
            s.tick(now, &mut orders);
            push_orders(&mut out, &orders, i);
            i = i + 1;
            proof {
                assert(Seq::<SoundAction>::empty() + tick_orders(before[i - 1], now)
                    =~= tick_orders(before[i - 1], now));
                assert(self.slots@ =~= ticked_slots(before, now, i as int));
            }
        }
        out
    }

    /// Whether any slot plays. Slots behind the first one that plays are left
    /// as they are.
    pub fn is_playing_any(&mut self, now: u128) -> (r: (bool, Vec<(usize, SoundAction)>))
        ensures
            any_asked(*old(self), *final(self), now, r.0, r.1@),
    {
        let mut out: Vec<(usize, SoundAction)> = Vec::new();
        let ghost before = self.slots@;
        let n: usize = self.slots.len();
        let mut i: usize = 0;
        proof {
            assert(self.slots@ =~= ticked_slots(before, now, 0));
            assert(before.skip(0) =~= before);
        }
        while i < n
            invariant
                i <= n,
                n == before.len(),
                before == old(self).slots@,
                only_slots(*old(self), *self),
                self.slots@ == ticked_slots(before, now, i as int),
                out@ == ticked_orders(before, now, i as int),
                silent_front(before, now) == i + silent_front(before.skip(i as int), now),
            decreases n - i,
        {
            let mut orders: Vec<SoundAction> = Vec::new();
            let s = &mut self.slots[i];
            s.tick(now, &mut orders);
            let heard: bool = s.is_heard();
            push_orders(&mut out, &orders, i);
            i = i + 1;
            proof {
                assert(Seq::<SoundAction>::empty() + tick_orders(before[i - 1], now)
                    =~= tick_orders(before[i - 1], now));
                assert(self.slots@ =~= ticked_slots(before, now, i as int));
                assert(before.skip(i - 1).drop_first() =~= before.skip(i as int));
            }
            if heard {
                return (true, out);
            }
        }
        proof {
            assert(before.skip(i as int).len() == 0);
            assert(ticked_slots(before, now, n as int) =~= ticked_slots(before, now, n + 1));
        }
        (false, out)
    }

    /// Whether a slot plays.
    pub fn is_playing_slot(&mut self, slot: usize, now: u128) -> (r: (bool, Vec<SoundAction>))
        ensures
            playing_asked(*old(self), *final(self), slot, now, r.0, r.1@),
    {
        let mut out: Vec<SoundAction> = Vec::new();
        if slot >= self.slots.len() {
            return (false, out);
        }
        let s = &mut self.slots[slot];
        s.tick(now, &mut out);
        let heard: bool = s.is_heard();
        proof {
            let t = old(self).slots@[slot as int];
            assert(out@ =~= tick_orders(t, now));
            assert(self.slots@ =~= old(self).slots@.update(slot as int, ticked(t, now)));
        }
        (heard, out)
    }

    /// Whether a slot fades to a stop.
    pub fn is_fading_slot(&mut self, slot: usize, now: u128) -> (r: (bool, Vec<SoundAction>))
        ensures
            fading_asked(*old(self), *final(self), slot, now, r.0, r.1@),
    {
        let mut out: Vec<SoundAction> = Vec::new();
        if slot >= self.slots.len() {
            return (false, out);
        }
        let s = &mut self.slots[slot];
        s.tick(now, &mut out);
        let fading: bool = s.fade_until.is_some();
        proof {
            let t = old(self).slots@[slot as int];
            assert(out@ =~= tick_orders(t, now));
            assert(self.slots@ =~= old(self).slots@.update(slot as int, ticked(t, now)));
        }
        (fading, out)
    }

    pub fn last_name_slot(&self, slot: usize) -> (r: Option<&str>)
        ensures
            match r {
                Some(name) => slot < self.slots@.len() && opt_name(
                    self.slots@[slot as int].last_name,
                ) == Some(name@),
                None => slot >= self.slots@.len() || self.slots@[slot as int].last_name is None,
            },
    {
        if slot >= self.slots.len() {
            return None;
        }
        match &self.slots[slot].last_name {
            Some(name) => Some(name.as_str()),
            None => None,
        }
    }

    /// Stops a slot, at once or with a fade.
    pub fn stop_slot(&mut self, slot: usize, fade_time_ms: Option<i64>, now: u128) -> (out: Vec<
        SoundAction,
    >)
        ensures
            slot_stopped(*old(self), *final(self), slot, fade_time_ms, now, out@),
    {
        let mut out: Vec<SoundAction> = Vec::new();
        if slot >= self.slots.len() {
            return out;
        }
        let s = &mut self.slots[slot];
        s.stop(fade_time_ms, now, &mut out);
        proof {
            let t = old(self).slots@[slot as int];
            assert(out@ =~= stop_orders(t, fade_time_ms, now));
            assert(self.slots@ =~= old(self).slots@.update(
                slot as int,
                stopped(t, fade_time_ms, now),
            ));
        }
        out
    }

    /// Stops every slot.
    pub fn stop_all(&mut self, fade_time_ms: Option<i64>, now: u128) -> (out: Vec<
        (usize, SoundAction),
    >)
        ensures
            all_stopped(*old(self), *final(self), fade_time_ms, now, out@),
    {
        let mut out: Vec<(usize, SoundAction)> = Vec::new();
        let ghost before = self.slots@;
        let n: usize = self.slots.len();
        let mut i: usize = 0;
        proof {
            assert(self.slots@ =~= stopped_slots(before, fade_time_ms, now, 0));
        }
        while i < n
            invariant
                i <= n,
                n == before.len(),
                before == old(self).slots@,
                only_slots(*old(self), *self),
                self.slots@ == stopped_slots(before, fade_time_ms, now, i as int),
                out@ == stopped_orders(before, fade_time_ms, now, i as int),
            decreases n - i,
        {
            let orders = self.stop_slot(i, fade_time_ms, now);
            push_orders(&mut out, &orders, i);
            i = i + 1;
            proof {
                assert(self.slots@ =~= stopped_slots(before, fade_time_ms, now, i as int));
            }
        }
        out
    }

    /// Puts a decoded sound into a slot and starts it, or makes it ready.
    /// Where the backend cannot start it, `start_failed` is to be called.
    pub fn play_decoded_wav_in_slot_with_options(
        &mut self,
        slot: usize,
        display_name: &str,
        wav: &[u8],
        loop_flag: bool,
        fade_in_ms: i64,
        ready_only: bool,
        audible: bool,
        now: u128,
    ) -> (r: Result<Vec<SoundAction>, SfxError>)
        ensures
            slot_played(
                *old(self),
                *final(self),
                slot,
                display_name@,
                wav@,
                loop_flag,
                fade_in_ms,
                ready_only,
                audible,
                now,
                r,
            ),
    {
        if slot >= self.slots.len() {
            return Err(SfxError::SlotOutOfRange);
        }
        let ms: u64 = match wav_duration_ms(wav) {
            Some(ms) => ms,
            None => DEFAULT_DURATION_MS,
        };
        let mut out = self.stop_slot(slot, None, now);
        let ghost first = out@;
        let ghost before = old(self).slots@[slot as int];
        let raw: u8 = self.slots[slot].volume_raw;
        proof {
            assert(raw == before.volume_raw);
        }
        if audible {
            out.push(SoundAction::Start { looping: loop_flag });
            if ready_only {
                out.push(SoundAction::SetVolume { raw, fade_ms: 0 });
                out.push(SoundAction::Pause { fade_ms: 0 });
            } else if fade_in_ms > 0 {
                out.push(SoundAction::Mute);
                out.push(SoundAction::SetVolume { raw, fade_ms: fade_in_ms });
            } else {
                out.push(SoundAction::SetVolume { raw, fade_ms: 0 });
            }
        }
        proof {
            assert(out@ =~= first + load_orders(
                before,
                loop_flag,
                fade_in_ms,
                ready_only,
                audible,
            ));
        }
        let s = &mut self.slots[slot];
        s.has_handle = audible;
        s.duration_ms = Some(ms);
        s.looping = loop_flag;
        s.last_name = Some(display_name.to_owned());
        s.ready_only = ready_only;
        s.fade_until = None;
        s.paused_at = if ready_only {
            Some(now)
        } else {
            None
        };
        s.resume_at = None;
        s.resume_fade_ms = 0;
        s.until = if ready_only || loop_flag {
            None
        } else {
            Some(after_ms(now, ms))
        };
        proof {
            assert(self.slots@ =~= old(self).slots@.update(
                slot as int,
                self.slots@[slot as int],
            ));
        }
        Ok(out)
    }

    /// Empties a slot whose sound the backend could not start.
    pub fn start_failed(&mut self, slot: usize) -> (out: Vec<SoundAction>)
        ensures
            only_slots(*old(self), *final(self)),
            if slot < old(self).slots@.len() {
                let s = old(self).slots@[slot as int];
                &&& final(self).slots@ == old(self).slots@.update(slot as int, cleared(s))
                &&& out@ == release_orders(s)
            } else {
                *final(self) == *old(self) && out@ == Seq::<SoundAction>::empty()
            },
    {
        let mut out: Vec<SoundAction> = Vec::new();
        if slot >= self.slots.len() {
            return out;
        }
        let s = &mut self.slots[slot];
        s.clear(&mut out);
        proof {
            let t = old(self).slots@[slot as int];
            assert(out@ =~= release_orders(t));
            assert(self.slots@ =~= old(self).slots@.update(slot as int, cleared(t)));
        }
        out
    }

    pub fn slot_volume_raw(&self, slot: usize) -> (v: u8)
        ensures
            v == (if slot < self.slots@.len() {
                self.slots@[slot as int].volume_raw
            } else {
                255
            }),
    {
        if slot < self.slots.len() {
            self.slots[slot].volume_raw
        } else {
            255
        }
    }

    pub fn set_slot_volume_raw_fade(&mut self, slot: usize, volume_raw: u8, fade_ms: i64) -> (out:
        Vec<SoundAction>)
        ensures
            slot_volume_set(*old(self), *final(self), slot, volume_raw, fade_ms, out@),
    {
        let mut out: Vec<SoundAction> = Vec::new();
        if slot >= self.slots.len() {
            return out;
        }
        let s = &mut self.slots[slot];
        s.volume_raw = volume_raw;
        if s.has_handle {
            let fade: i64 = if fade_ms < 0 {
                0
            } else {
                fade_ms
            };
            out.push(SoundAction::SetVolume { raw: volume_raw, fade_ms: fade });
        }
        proof {
            assert(self.slots@ =~= old(self).slots@.update(
                slot as int,
                Slot { volume_raw, ..old(self).slots@[slot as int] },
            ));
        }
        out
    }

    /// Pauses a slot.
    pub fn pause_slot(&mut self, slot: usize, fade_time_ms: Option<i64>, now: u128) -> (out: Vec<
        SoundAction,
    >)
        ensures
            slot_paused(*old(self), *final(self), slot, fade_time_ms, now, out@),
    {
        let mut out: Vec<SoundAction> = Vec::new();
        if slot >= self.slots.len() {
            return out;
        }
        let ghost before = self.slots@[slot as int];
        let s = &mut self.slots[slot];
        s.tick(now, &mut out);
        if s.last_name.is_some() && !s.ready_only && s.paused_at.is_none() && s.resume_at.is_none() {
            let ms: i64 = clamp_fade(fade_time_ms);
            if s.has_handle {
                out.push(SoundAction::Pause { fade_ms: ms });
            }
            s.paused_at = Some(after_ms(now, ms as u64));
            s.resume_at = None;
            s.resume_fade_ms = 0;
        }
        proof {
            assert(out@ =~= pause_orders(before, fade_time_ms, now));
            assert(self.slots@ =~= old(self).slots@.update(
                slot as int,
                paused(before, fade_time_ms, now),
            ));
        }
        out
    }

    /// Lets a slot go on, at once or after a delay.
    pub fn resume_slot(&mut self, slot: usize, fade_ms: i64, delay_ms: i64, now: u128) -> (out: Vec<
        SoundAction,
    >)
        ensures
            slot_resumed(*old(self), *final(self), slot, fade_ms, delay_ms, now, out@),
    {
        let mut out: Vec<SoundAction> = Vec::new();
        if slot >= self.slots.len() {
            return out;
        }
        let fade: i64 = if fade_ms < 0 {
            0
        } else {
            fade_ms
        };
        let ghost before = self.slots@[slot as int];
        let s = &mut self.slots[slot];
        s.tick(now, &mut out);
        if s.last_name.is_some() && s.fade_until.is_none() && (s.ready_only
            || s.paused_at.is_some()) {
            if delay_ms <= 0 {
                s.resume_now(fade, now, &mut out);
            } else {
                s.resume_at = Some(after_ms(now, delay_ms as u64));
                s.resume_fade_ms = fade;
            }
        }
        proof {
            assert(out@ =~= continue_orders(before, fade_ms, delay_ms, now));
            assert(self.slots@ =~= old(self).slots@.update(
                slot as int,
                continued(before, fade_ms, delay_ms, now),
            ));
        }
        out
    }

    /// Whether a slot waits for a time.
    pub fn needs_tick(&self) -> (r: bool)
        ensures
            r == exists|i: int|
                0 <= i < self.slots@.len() && ((#[trigger] self.slots@[i]).resume_at is Some
                    || self.slots@[i].fade_until is Some),
    {
        let mut i: usize = 0;
        while i < self.slots.len()
            invariant
                i <= self.slots@.len(),
                forall|k: int|
                    0 <= k < i ==> (#[trigger] self.slots@[k]).resume_at is None
                        && self.slots@[k].fade_until is None,
            decreases self.slots@.len() - i,
        {
            if self.slots[i].resume_at.is_some() || self.slots[i].fade_until.is_some() {
                return true;
            }
            i = i + 1;
        }
        false
    }
}

// The files of sounds.

/// The extensions that a sound may have, in the order in which they are tried.
pub open spec fn sound_extensions() -> Seq<Seq<char>> {
    seq!["wav"@, "nwa"@, "ogg"@, "owp"@, "ovk"@]
}

/// The path of a sound by its place in the game.
pub open spec fn base_path(e: SfxEngine, file_name: Seq<char>) -> Seq<char> {
    paths::joined(paths::joined(e.project_dir@, e.sub_dir@), file_name)
}

/// The first path with a sound's extension, from the extension at `k` on, that
/// exists.
pub open spec fn first_existing(base: Seq<char>, existing: Seq<String>, k: int) -> Option<Seq<char>>
    decreases 5 - k,
{
    if k < 0 || k >= 5 {
        None
    } else {
        let p = paths::extended(base, sound_extensions()[k]);
        if listed(existing, p) {
            Some(p)
        } else {
            first_existing(base, existing, k + 1)
        }
    }
}

pub open spec fn listed(list: Seq<String>, path: Seq<char>) -> bool {
    exists|i: int| 0 <= i < list.len() && (#[trigger] list[i])@ == path
}

/// The file of a sound: the name itself, the file that the resource search
/// found, the path in the game, or that path with a sound's extension.
pub open spec fn resolved(
    e: SfxEngine,
    file_name: Seq<char>,
    existing: Seq<String>,
    found: Option<Seq<char>>,
) -> Option<Seq<char>> {
    let base = base_path(e, file_name);
    if listed(existing, file_name) {
        Some(file_name)
    } else if found is Some {
        found
    } else if paths::has_extension(base) && listed(existing, base) {
        Some(base)
    } else {
        first_existing(base, existing, 0)
    }
}

fn is_listed(list: &Vec<String>, path: &str) -> (r: bool)
    ensures
        r == listed(list@, path@),
{
    let mut i: usize = 0;
    while i < list.len()
        invariant
            i <= list@.len(),
            forall|k: int| 0 <= k < i ==> (#[trigger] list@[k])@ != path@,
        decreases list@.len() - i,
    {
        if same_text(list[i].as_str(), path) {
            return true;
        }
        i = i + 1;
    }
    false
}

fn sound_extension(k: usize) -> (r: &'static str)
    requires
        k < 5,
    ensures
        r@ == sound_extensions()[k as int],
{
    if k == 0 {
        "wav"
    } else if k == 1 {
        "nwa"
    } else if k == 2 {
        "ogg"
    } else if k == 3 {
        "owp"
    } else {
        "ovk"
    }
}

/// How the bytes of a sound are had.
#[derive(Debug, Clone, Copy, PartialEq, Eq, Structural)]
pub enum SoundSource {
    /// The file is a WAV file.
    Wav,
    /// The file is to be decoded.
    Decode,
}

/// How the bytes of a file are had, by its extension.
pub open spec fn source_of(path: Seq<char>) -> Result<SoundSource, SfxError> {
    let ext = assets::extension_of(path);
    if ext == "wav"@ {
        Ok(SoundSource::Wav)
    } else if ext == "nwa"@ || ext == "ogg"@ || ext == "owp"@ || ext == "ovk"@ {
        Ok(SoundSource::Decode)
    } else {
        Err(SfxError::UnsupportedExtension)
    }
}

/// What has to be read to play a file in a slot.
pub open spec fn planned(
    e: SfxEngine,
    slot: int,
    file_name: Seq<char>,
    existing: Seq<String>,
    found: Option<Seq<char>>,
) -> Result<(Seq<char>, SoundSource), SfxError> {
    if slot >= e.slots@.len() {
        Err(SfxError::SlotOutOfRange)
    } else {
        match resolved(e, file_name, existing, found) {
            Some(path) => match source_of(path) {
                Ok(source) => Ok((path, source)),
                Err(error) => Err(error),
            },
            None => Err(SfxError::NotFound),
        }
    }
}

/// How the bytes of a file are had, by its extension.
pub fn sound_source(path: &str) -> (r: Result<SoundSource, SfxError>)
    ensures
        r == source_of(path@),
{
    let ext = lower_extension(path);
    let e = ext.as_str();
    if same_text(e, "wav") {
        return Ok(SoundSource::Wav);
    }
    if same_text(e, "nwa") || same_text(e, "ogg") || same_text(e, "owp") || same_text(e, "ovk") {
        return Ok(SoundSource::Decode);
    }
    Err(SfxError::UnsupportedExtension)
}

/// What a voice is called in its slot.
pub fn koe_name(koe_no: i64) -> (r: String)
    ensures
        r@ == "koe:"@ + number_text::decimal(koe_no as int),
{
    let n = decimal_i64(koe_no);
    join("koe:", n.as_str())
}

impl SfxEngine {
    fn base(&self, file_name: &str) -> (r: String)
        ensures
            r@ == base_path(*self, file_name@),
    {
        let dir = join_path(self.project_dir.as_str(), self.sub_dir.as_str());
        join_path(dir.as_str(), file_name)
    }

    /// The paths that may be the file of a sound. Which of them exist is to be
    /// found out for `resolve_path`.
    pub fn probe_paths(&self, file_name: &str) -> (r: Vec<String>)
        ensures
            r@.len() == 7,
            r@[0]@ == file_name@,
            r@[1]@ == base_path(*self, file_name@),
            forall|k: int|
                0 <= k < 5 ==> (#[trigger] r@[2 + k])@ == paths::extended(
                    base_path(*self, file_name@),
                    sound_extensions()[k],
                ),
    {
        let base = self.base(file_name);
        let mut r: Vec<String> = Vec::new();
        r.push(file_name.to_owned());
        r.push(base.clone());
        let mut k: usize = 0;
        while k < 5
            invariant
                k <= 5,
                r@.len() == 2 + k,
                r@[0]@ == file_name@,
                r@[1]@ == base@,
                base@ == base_path(*self, file_name@),
                forall|j: int|
                    0 <= j < k ==> (#[trigger] r@[2 + j])@ == paths::extended(
                        base@,
                        sound_extensions()[j],
                    ),
            decreases 5 - k,
        {
            r.push(with_extension(base.as_str(), sound_extension(k)));
            k = k + 1;
        }
        r
    }

    /// The file of a sound. `existing` has the paths that exist, and `found`
    /// what the resource search found.
    pub fn resolve_path(&self, file_name: &str, existing: &Vec<String>, found: Option<String>) -> (r:
        Result<String, SfxError>)
        ensures
            match (r, resolved(*self, file_name@, existing@, opt_name(found))) {
                (Ok(path), Some(p)) => path@ == p,
                (Err(e), None) => e == SfxError::NotFound,
                _ => false,
            },
    {
        if is_listed(existing, file_name) {
            return Ok(file_name.to_owned());
        }
        if let Some(path) = found {
            return Ok(path);
        }
        let base = self.base(file_name);
        if path_has_extension(base.as_str()) && is_listed(existing, base.as_str()) {
            return Ok(base);
        }
        let mut k: usize = 0;
        while k < 5
            invariant
                k <= 5,
                resolved(*self, file_name@, existing@, opt_name(found)) == first_existing(
                    base@,
                    existing@,
                    k as int,
                ),
            decreases 5 - k,
        {
            let p = with_extension(base.as_str(), sound_extension(k));
            if is_listed(existing, p.as_str()) {
                return Ok(p);
            }
            k = k + 1;
        }
        Err(SfxError::NotFound)
    }

    /// What has to be read to play a file in a slot: its path, and how its
    /// bytes are had. `existing` has the paths that exist, and `found` what
    /// the resource search found.
    pub fn plan_file_name_in_slot(
        &self,
        slot: usize,
        file_name: &str,
        existing: &Vec<String>,
        found: Option<String>,
    ) -> (r: Result<(String, SoundSource), SfxError>)
        ensures
            match (r, planned(*self, slot as int, file_name@, existing@, opt_name(found))) {
                (Ok(p), Ok(q)) => p.0@ == q.0 && p.1 == q.1,
                (Err(a), Err(b)) => a == b,
                _ => false,
            },
    {
        if slot >= self.slots.len() {
            return Err(SfxError::SlotOutOfRange);
        }
        match self.resolve_path(file_name, existing, found) {
            Ok(path) => match sound_source(path.as_str()) {
                Ok(source) => Ok((path, source)),
                Err(e) => Err(e),
            },
            Err(e) => Err(e),
        }
    }

    /// What a voice is called in its slot, where there is such a slot.
    pub fn plan_koe_no_in_slot(&self, slot: usize, koe_no: i64) -> (r: Result<String, SfxError>)
        ensures
            match r {
                Ok(name) => slot < self.slots@.len() && name@ == "koe:"@ + number_text::decimal(
                    koe_no as int,
                ),
                Err(e) => slot >= self.slots@.len() && e == SfxError::SlotOutOfRange,
            },
    {
        if slot >= self.slots.len() {
            return Err(SfxError::SlotOutOfRange);
        }
        Ok(koe_name(koe_no))
    }
}

// Laws.

/// A slot that was stopped at once is empty.
pub proof fn stop_without_fade_empties_the_slot(s: Slot, fade: Option<i64>, now: u128)
    requires
        fade_or_zero(fade) == 0,
    ensures
        stopped(s, fade, now) == cleared(s),
        !playing(stopped(s, fade, now)),
{
}

/// A slot that fades to a stop is not heard by those who ask, and is empty
/// when the fade is over.
pub proof fn fade_ends_in_an_empty_slot(s: Slot, fade: i64, now: u128, end: u128)
    requires
        fade > 0,
        end >= deadline(now, fade as int),
    ensures
        !playing(stopped(s, Some(fade), now)),
        ticked(stopped(s, Some(fade), now), end) == cleared(s),
{
}

/// Bringing a slot up to date twice at one time is the same as once.
pub proof fn tick_twice_is_tick_once(s: Slot, now: u128)
    ensures
        ticked(ticked(s, now), now) == ticked(s, now),
{
}

/// A sound that is paused at once and goes on later ends later by the length
/// of the pause, whenever the slot is brought up to date between.
pub proof fn pause_moves_the_end(s: Slot, from: u128, between: u128, to: u128)
    requires
        playing(s),
        !s.looping,
        s.until matches Some(u) && from < u && u + (to - from) <= u128::MAX,
        from <= between <= to,
    ensures
        ({
            let held = ticked(paused(s, None, from), between);
            let on = continued(held, 0, 0, to);
            &&& !playing(held)
            &&& on.until == Some((s.until->0 + (to - from)) as u128)
            &&& playing(on)
        }),
{
    let p = paused(s, None, from);
    assert(ticked(s, from) == s);
    assert(p.paused_at == Some(from));
    assert(ticked(p, between) == p);
    assert(ticked(p, to) == p);
}

/// A sound that was only made ready plays its full length from when it goes
/// on.
pub proof fn ready_sound_starts_in_full(s: Slot, now: u128)
    requires
        s.ready_only,
        can_resume(s),
        !s.looping,
        s.resume_at is None,
    ensures
        !playing(ticked(s, now)),
        ({
            let on = continued(s, 0, 0, now);
            on.until == Some(
                deadline(
                    now,
                    match s.duration_ms {
                        Some(ms) => ms as int,
                        None => DEFAULT_DURATION_MS as int,
                    },
                ),
            )
        }),
{
    assert(ticked(s, now) == s);
}

/// A sound that is played once is heard from now until its own duration is over,
/// and not a moment longer; one whose duration is not known counts as two seconds
/// long.
pub proof fn sounds_last_as_long_as_their_duration(
    s: Slot,
    a: Slot,
    name: Seq<char>,
    wav: Seq<u8>,
    audible: bool,
    now: u128,
    later: u128,
    ms: int,
)
    requires
        loaded(s, a, name, wav, false, false, audible, now),
        a.duration_ms matches Some(d) && d == ms,
        now + ms * 1_000_000 <= u128::MAX,
    ensures
        playing(a),
        later < now + ms * 1_000_000 ==> ticked(a, later) == a,
        later >= now + ms * 1_000_000 ==> ticked(a, later) == cleared(a) && !playing(
            ticked(a, later),
        ) && tick_orders(a, later) == (if audible {
            seq![SoundAction::Release]
        } else {
            Seq::empty()
        }),
        wav::duration(wav) matches Some(d) ==> ms == d as u64,
        a.volume_raw == s.volume_raw,
{
    assert(Seq::<SoundAction>::empty() + release_orders(a) =~= release_orders(a));
}

/// A sound that is repeated is heard until it is stopped.
pub proof fn repeated_sounds_go_on(
    s: Slot,
    a: Slot,
    name: Seq<char>,
    wav: Seq<u8>,
    audible: bool,
    now: u128,
    later: u128,
)
    requires
        loaded(s, a, name, wav, true, false, audible, now),
    ensures
        playing(a),
        ticked(a, later) == a,
        tick_orders(a, later) == Seq::<SoundAction>::empty(),
{
}

/// A sound that is faded out is silent when the fade is over, and keeps its slot
/// until then; it does not count as playing meanwhile, and the mixer is told how
/// long the fade is.
pub proof fn fades_take_their_time(s: Slot, fade: i64, now: u128, later: u128)
    requires
        fade > 0,
        now + fade * 1_000_000 <= u128::MAX,
        ticked(s, now).last_name is Some,
    ensures
        ({
            let out = stopped(s, Some(fade), now);
            &&& !playing(out)
            &&& out.last_name == ticked(s, now).last_name
            &&& later < now + fade * 1_000_000 ==> ticked(out, later) == out
            &&& later >= now + fade * 1_000_000 ==> ticked(out, later) == cleared(s)
            &&& ticked(s, now).has_handle ==> stop_orders(s, Some(fade), now) == tick_orders(s, now)
                + seq![SoundAction::Stop { fade_ms: fade }]
            &&& ticked(s, now).has_handle ==> stop_orders(s, None, now) == tick_orders(s, now)
                + seq![SoundAction::Stop { fade_ms: 0 }, SoundAction::Release]
        }),
{
}

/// A sound that is to go on after a delay stays silent until the delay is over,
/// and is heard from then on; without a delay it is heard at once. What is left
/// of it is what was left when it was paused.
pub proof fn delayed_sounds_wait(s: Slot, fade_ms: i64, delay_ms: i64, now: u128, later: u128)
    requires
        waits(ticked(s, now)),
        !s.looping,
        s.until is Some || s.ready_only,
        ticked(s, now) == s,
        s.resume_at is None,
        delay_ms > 0,
        now + delay_ms * 1_000_000 <= u128::MAX,
    ensures
        ({
            let held = continued(s, fade_ms, delay_ms, now);
            let at = (now + delay_ms * 1_000_000) as u128;
            &&& !playing(held)
            &&& later < at && !ended(held, later) ==> !playing(ticked(held, later))
            &&& resumed(held, at) == resumed(s, at)
            &&& playing(resumed(s, at))
            &&& continued(s, fade_ms, 0, now) == resumed(s, now)
            &&& s.ready_only && s.duration_ms is Some && at + s.duration_ms->0 * 1_000_000
                <= u128::MAX ==> resumed(s, at).until == Some(
                (at + s.duration_ms->0 * 1_000_000) as u128,
            )
            &&& !s.ready_only && s.paused_at is Some && s.paused_at->0 <= at && s.until->0 + at
                - s.paused_at->0 <= u128::MAX ==> resumed(s, at).until == Some(
                (s.until->0 + (at - s.paused_at->0)) as u128,
            )
        }),
{
}

/// A sound that is faded in starts silent and is brought to the volume of its
/// slot in the time of the fade; one that is only made ready is held; and every
/// other has that volume at once.
pub proof fn started_sounds_get_the_volume_of_their_slot(
    s: Slot,
    looping: bool,
    fade_in_ms: i64,
    ready: bool,
)
    ensures
        ({
            let orders = load_orders(s, looping, fade_in_ms, ready, true);
            &&& orders.len() >= 2 && orders[0] == (SoundAction::Start { looping })
            &&& orders.contains(SoundAction::Mute) <==> fade_in_ms > 0 && !ready
            &&& orders.contains(SoundAction::Pause { fade_ms: 0 }) <==> ready
            &&& fade_in_ms > 0 && !ready ==> orders.last() == (SoundAction::SetVolume {
                raw: s.volume_raw,
                fade_ms: fade_in_ms,
            })
            &&& !(fade_in_ms > 0 && !ready) ==> orders[1] == (SoundAction::SetVolume {
                raw: s.volume_raw,
                fade_ms: 0,
            })
            &&& load_orders(s, looping, fade_in_ms, ready, false) == Seq::<SoundAction>::empty()
        }),
{
    let orders = load_orders(s, looping, fade_in_ms, ready, true);
    if ready {
        assert(orders[2] == (SoundAction::Pause { fade_ms: 0 }));
        assert(!orders.contains(SoundAction::Mute));
    } else if fade_in_ms > 0 {
        assert(orders[1] == SoundAction::Mute);
        assert(!orders.contains(SoundAction::Pause { fade_ms: 0 }));
    } else {
        assert(!orders.contains(SoundAction::Mute));
        assert(!orders.contains(SoundAction::Pause { fade_ms: 0 }));
    }
}

/// A file that is there under its own name is taken before any other; what the
/// search found comes next; and of the files with an extension added, the first
/// kind that is there.
pub proof fn nearer_files_are_taken_first(
    e: SfxEngine,
    file_name: Seq<char>,
    existing: Seq<String>,
    found: Option<Seq<char>>,
    k: int,
)
    requires
        0 <= k < 5,
    ensures
        ({
            let base = paths::joined(paths::joined(e.project_dir@, e.sub_dir@), file_name);
            let kinds = seq!["wav"@, "nwa"@, "ogg"@, "owp"@, "ovk"@];
            let r = resolved(e, file_name, existing, found);
            let here = |p: Seq<char>| exists|i: int| 0 <= i < existing.len() && #[trigger] existing[i]@ == p;
            &&& here(file_name) ==> r == Some(file_name)
            &&& !here(file_name) && found is Some ==> r == found
            &&& !here(file_name) && found is None && !paths::has_extension(base) && here(
                paths::extended(base, kinds[k]),
            ) && (forall|j: int|
                0 <= j < k ==> !here(paths::extended(base, #[trigger] kinds[j]))) ==> r == Some(
                paths::extended(base, kinds[k]),
            )
        }),
{
    let base = paths::joined(paths::joined(e.project_dir@, e.sub_dir@), file_name);
    let kinds = seq!["wav"@, "nwa"@, "ogg"@, "owp"@, "ovk"@];
    assert(sound_extensions() =~= kinds);
    if (forall|j: int| 0 <= j < k ==> !listed(existing, paths::extended(base, #[trigger] kinds[j])))
        && listed(existing, paths::extended(base, kinds[k])) {
        lemma_first_existing(base, existing, 0, k);
    }
}

proof fn lemma_first_existing(base: Seq<char>, existing: Seq<String>, from: int, k: int)
    requires
        0 <= from <= k < 5,
        listed(existing, paths::extended(base, sound_extensions()[k])),
        forall|j: int|
            from <= j < k ==> !listed(
                existing,
                paths::extended(base, #[trigger] sound_extensions()[j]),
            ),
    ensures
        first_existing(base, existing, from) == Some(paths::extended(base, sound_extensions()[k])),
    decreases k - from,
{
    if from < k {
        assert(!listed(existing, paths::extended(base, sound_extensions()[from])));
        lemma_first_existing(base, existing, from + 1, k);
    }
}

} // verus!
