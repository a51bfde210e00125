//! The engines of the three kinds of sound.

use vstd::prelude::*;
use crate::audio::sfx_engine;
use crate::audio::sfx_engine::{SfxEngine, SfxError, SoundAction, TrackKind, TrackVolume};

verus! {

/// Sounds that a script plays in numbered channels.
#[derive(Debug)]
pub struct PcmEngine {
    pub inner: SfxEngine,
}

impl PcmEngine {
    pub fn new(project_dir: &str) -> (e: PcmEngine)
        ensures
            sfx_engine::fresh(e.inner, project_dir@, "wav"@, TrackKind::Pcm, 16),
    {
        PcmEngine { inner: SfxEngine::new(project_dir, "wav", TrackKind::Pcm, 16) }
    }

    /// Puts a decoded sound into a slot and starts it at full volume.
    pub fn play_decoded_wav_in_slot(
        &mut self,
        slot: usize,
        display_name: &str,
        wav: &[u8],
        loop_flag: bool,
        audible: bool,
        now: u128,
    ) -> (r: Result<Vec<SoundAction>, SfxError>)
        ensures
            sfx_engine::slot_played(
                old(self).inner,
                final(self).inner,
                slot,
                display_name@,
                wav@,
                loop_flag,
                0,
                false,
                audible,
                now,
                r,
            ),
    {
        self.inner.play_decoded_wav_in_slot_with_options(
            slot,
            display_name,
            wav,
            loop_flag,
            0,
            false,
            audible,
            now,
        )
    }

    /// Puts a decoded sound into a slot.
    pub fn play_decoded_wav_in_slot_with_options(
        &mut self,
        slot: usize,
        display_name: &str,
        wav: &[u8],
        loop_flag: bool,
        fade_in_ms: i64,
        ready_only: bool,
        audible: bool,
        now: u128,
    ) -> (r: Result<Vec<SoundAction>, SfxError>)
        ensures
            sfx_engine::slot_played(
                old(self).inner,
                final(self).inner,
                slot,
                display_name@,
                wav@,
                loop_flag,
                fade_in_ms,
                ready_only,
                audible,
                now,
                r,
            ),
    {
        self.inner.play_decoded_wav_in_slot_with_options(
            slot,
            display_name,
            wav,
            loop_flag,
            fade_in_ms,
            ready_only,
            audible,
            now,
        )
    }

    /// Stops the first slot.
    pub fn stop(&mut self, fade_time_ms: Option<i64>, now: u128) -> (out: Vec<SoundAction>)
        ensures
            sfx_engine::slot_stopped(old(self).inner, final(self).inner, 0, fade_time_ms, now, out@),
    {
        self.inner.stop_slot(0, fade_time_ms, now)
    }

    pub fn stop_slot(&mut self, slot: usize, fade_time_ms: Option<i64>, now: u128) -> (out: Vec<
        SoundAction,
    >)
        ensures
            sfx_engine::slot_stopped(
                old(self).inner,
                final(self).inner,
                slot,
                fade_time_ms,
                now,
                out@,
            ),
    {
        self.inner.stop_slot(slot, fade_time_ms, now)
    }

    pub fn stop_all(&mut self, fade_time_ms: Option<i64>, now: u128) -> (out: Vec<
        (usize, SoundAction),
    >)
        ensures
            sfx_engine::all_stopped(old(self).inner, final(self).inner, fade_time_ms, now, out@),
    {
        self.inner.stop_all(fade_time_ms, now)
    }

    pub fn pause_slot(&mut self, slot: usize, fade_time_ms: Option<i64>, now: u128) -> (out: Vec<
        SoundAction,
    >)
        ensures
            sfx_engine::slot_paused(
                old(self).inner,
                final(self).inner,
                slot,
                fade_time_ms,
                now,
                out@,
            ),
    {
        self.inner.pause_slot(slot, fade_time_ms, now)
    }

    pub fn resume_slot(&mut self, slot: usize, fade_ms: i64, delay_ms: i64, now: u128) -> (out: Vec<
        SoundAction,
    >)
        ensures
            sfx_engine::slot_resumed(
                old(self).inner,
                final(self).inner,
                slot,
                fade_ms,
                delay_ms,
                now,
                out@,
            ),
    {
        self.inner.resume_slot(slot, fade_ms, delay_ms, now)
    }

    pub fn tick(&mut self, now: u128) -> (out: Vec<(usize, SoundAction)>)
        ensures
            sfx_engine::all_ticked(old(self).inner, final(self).inner, now, out@),
    {
        self.inner.tick(now)
    }

    pub fn needs_tick(&self) -> (r: bool)
        ensures
            r == exists|i: int|
                0 <= i < self.inner.slots@.len() && ((
                #[trigger] self.inner.slots@[i]).resume_at is Some
                    || self.inner.slots@[i].fade_until is Some),
    {
        self.inner.needs_tick()
    }

    pub fn is_playing_any(&mut self, now: u128) -> (r: (bool, Vec<(usize, SoundAction)>))
        ensures
            sfx_engine::any_asked(old(self).inner, final(self).inner, now, r.0, r.1@),
    {
        self.inner.is_playing_any(now)
    }

    pub fn is_playing_slot(&mut self, slot: usize, now: u128) -> (r: (bool, Vec<SoundAction>))
        ensures
            sfx_engine::playing_asked(old(self).inner, final(self).inner, slot, now, r.0, r.1@),
    {
        self.inner.is_playing_slot(slot, now)
    }

    pub fn is_fading_slot(&mut self, slot: usize, now: u128) -> (r: (bool, Vec<SoundAction>))
        ensures
            sfx_engine::fading_asked(old(self).inner, final(self).inner, slot, now, r.0, r.1@),
    {
        self.inner.is_fading_slot(slot, now)
    }

    pub fn slot_volume_raw(&self, slot: usize) -> (v: u8)
        ensures
            v == (if slot < self.inner.slots@.len() {
                self.inner.slots@[slot as int].volume_raw
            } else {
                255
            }),
    {
        self.inner.slot_volume_raw(slot)
    }

    pub fn set_slot_volume_raw_fade(&mut self, slot: usize, volume_raw: u8, fade_ms: i64) -> (out:
        Vec<SoundAction>)
        ensures
            sfx_engine::slot_volume_set(
                old(self).inner,
                final(self).inner,
                slot,
                volume_raw,
                fade_ms,
                out@,
            ),
    {
        self.inner.set_slot_volume_raw_fade(slot, volume_raw, fade_ms)
    }

    pub fn volume_raw(&self) -> (v: u8)
        ensures
            v == self.inner.volume_raw,
    {
        self.inner.volume_raw()
    }

    pub fn set_volume_raw(&mut self, volume_raw: u8) -> (order: TrackVolume)
        ensures
            final(self).inner == (SfxEngine { volume_raw, ..old(self).inner }),
            order == (TrackVolume {
                track: old(self).inner.track_kind,
                raw: volume_raw,
                fade_ms: None,
            }),
    {
        self.inner.set_volume_raw(volume_raw)
    }

    pub fn set_volume_raw_fade(&mut self, volume_raw: u8, fade_ms: i64) -> (order: TrackVolume)
        ensures
            final(self).inner == (SfxEngine { volume_raw, ..old(self).inner }),
            order == (TrackVolume {
                track: old(self).inner.track_kind,
                raw: volume_raw,
                fade_ms: Some(fade_ms),
            }),
    {
        self.inner.set_volume_raw_fade(volume_raw, fade_ms)
    }
}

/// Voices. One voice plays at a time.
#[derive(Debug)]
pub struct KoeEngine {
    pub inner: SfxEngine,
}

impl KoeEngine {
    pub fn new(project_dir: &str) -> (e: KoeEngine)
        ensures
            sfx_engine::fresh(e.inner, project_dir@, "wav"@, TrackKind::Koe, 1),
    {
        KoeEngine { inner: SfxEngine::new(project_dir, "wav", TrackKind::Koe, 1) }
    }

    /// Puts a decoded sound into a slot and starts it at full volume.
    pub fn play_decoded_wav_in_slot(
        &mut self,
        slot: usize,
        display_name: &str,
        wav: &[u8],
        loop_flag: bool,
        audible: bool,
        now: u128,
    ) -> (r: Result<Vec<SoundAction>, SfxError>)
        ensures
            sfx_engine::slot_played(
                old(self).inner,
                final(self).inner,
                slot,
                display_name@,
                wav@,
                loop_flag,
                0,
                false,
                audible,
                now,
                r,
            ),
    {
        self.inner.play_decoded_wav_in_slot_with_options(
            slot,
            display_name,
            wav,
            loop_flag,
            0,
            false,
            audible,
            now,
        )
    }

    /// Stops the first slot.
    pub fn stop(&mut self, fade_time_ms: Option<i64>, now: u128) -> (out: Vec<SoundAction>)
        ensures
            sfx_engine::slot_stopped(old(self).inner, final(self).inner, 0, fade_time_ms, now, out@),
    {
        self.inner.stop_slot(0, fade_time_ms, now)
    }

    pub fn is_playing_any(&mut self, now: u128) -> (r: (bool, Vec<(usize, SoundAction)>))
        ensures
            sfx_engine::any_asked(old(self).inner, final(self).inner, now, r.0, r.1@),
    {
        self.inner.is_playing_any(now)
    }

    pub fn volume_raw(&self) -> (v: u8)
        ensures
            v == self.inner.volume_raw,
    {
        self.inner.volume_raw()
    }

    pub fn set_volume_raw(&mut self, volume_raw: u8) -> (order: TrackVolume)
        ensures
            final(self).inner == (SfxEngine { volume_raw, ..old(self).inner }),
            order == (TrackVolume {
                track: old(self).inner.track_kind,
                raw: volume_raw,
                fade_ms: None,
            }),
    {
        self.inner.set_volume_raw(volume_raw)
    }

    pub fn set_volume_raw_fade(&mut self, volume_raw: u8, fade_ms: i64) -> (order: TrackVolume)
        ensures
            final(self).inner == (SfxEngine { volume_raw, ..old(self).inner }),
            order == (TrackVolume {
                track: old(self).inner.track_kind,
                raw: volume_raw,
                fade_ms: Some(fade_ms),
            }),
    {
        self.inner.set_volume_raw_fade(volume_raw, fade_ms)
    }
}

/// Sound effects.
#[derive(Debug)]
pub struct SeEngine {
    pub inner: SfxEngine,
}

impl SeEngine {
    pub fn new(project_dir: &str) -> (e: SeEngine)
        ensures
            sfx_engine::fresh(e.inner, project_dir@, "wav"@, TrackKind::Se, 16),
    {
        SeEngine { inner: SfxEngine::new(project_dir, "wav", TrackKind::Se, 16) }
    }

    /// Puts a decoded sound into a slot and starts it at full volume.
    pub fn play_decoded_wav_in_slot(
        &mut self,
        slot: usize,
        display_name: &str,
        wav: &[u8],
        loop_flag: bool,
        audible: bool,
        now: u128,
    ) -> (r: Result<Vec<SoundAction>, SfxError>)
        ensures
            sfx_engine::slot_played(
                old(self).inner,
                final(self).inner,
                slot,
                display_name@,
                wav@,
                loop_flag,
                0,
                false,
                audible,
                now,
                r,
            ),
    {
        self.inner.play_decoded_wav_in_slot_with_options(
            slot,
            display_name,
            wav,
            loop_flag,
            0,
            false,
            audible,
            now,
        )
    }

    /// Stops every slot.
    pub fn stop(&mut self, fade_time_ms: Option<i64>, now: u128) -> (out: Vec<(usize, SoundAction)>)
        ensures
            sfx_engine::all_stopped(old(self).inner, final(self).inner, fade_time_ms, now, out@),
    {
        self.inner.stop_all(fade_time_ms, now)
    }

    pub fn stop_slot(&mut self, slot: usize, fade_time_ms: Option<i64>, now: u128) -> (out: Vec<
        SoundAction,
    >)
        ensures
            sfx_engine::slot_stopped(
                old(self).inner,
                final(self).inner,
                slot,
                fade_time_ms,
                now,
                out@,
            ),
    {
        self.inner.stop_slot(slot, fade_time_ms, now)
    }

    pub fn is_playing_any(&mut self, now: u128) -> (r: (bool, Vec<(usize, SoundAction)>))
        ensures
            sfx_engine::any_asked(old(self).inner, final(self).inner, now, r.0, r.1@),
    {
        self.inner.is_playing_any(now)
    }

    pub fn is_playing_slot(&mut self, slot: usize, now: u128) -> (r: (bool, Vec<SoundAction>))
        ensures
            sfx_engine::playing_asked(old(self).inner, final(self).inner, slot, now, r.0, r.1@),
    {
        self.inner.is_playing_slot(slot, now)
    }

    pub fn volume_raw(&self) -> (v: u8)
        ensures
            v == self.inner.volume_raw,
    {
        self.inner.volume_raw()
    }

    pub fn set_volume_raw(&mut self, volume_raw: u8) -> (order: TrackVolume)
        ensures
            final(self).inner == (SfxEngine { volume_raw, ..old(self).inner }),
            order == (TrackVolume {
                track: old(self).inner.track_kind,
                raw: volume_raw,
                fade_ms: None,
            }),
    {
        self.inner.set_volume_raw(volume_raw)
    }

    pub fn set_volume_raw_fade(&mut self, volume_raw: u8, fade_ms: i64) -> (order: TrackVolume)
        ensures
            final(self).inner == (SfxEngine { volume_raw, ..old(self).inner }),
            order == (TrackVolume {
                track: old(self).inner.track_kind,
                raw: volume_raw,
                fade_ms: Some(fade_ms),
            }),
    {
        self.inner.set_volume_raw_fade(volume_raw, fade_ms)
    }

    /// What the sound in the first slot is called.
    pub fn last_name(&self) -> (r: Option<&str>)
        ensures
            match r {
                Some(name) => self.inner.slots@.len() > 0 && sfx_engine::opt_name(
                    self.inner.slots@[0].last_name,
                ) == Some(name@),
                None => self.inner.slots@.len() == 0 || self.inner.slots@[0].last_name is None,
            },
    {
        self.inner.last_name_slot(0)
    }
}

} // verus!
