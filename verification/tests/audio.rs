use siglus_scene_vm::aether_audio_bridge::{
    next_slice, read_answer, PcmBackend, PcmBackendError, PcmBackendSettings, SampleRing,
    HOST_SAMPLE_RATE, SLICE_NANOS,
};
use siglus_scene_vm::audio::engines::{KoeEngine, PcmEngine, SeEngine};
use siglus_scene_vm::audio::jitan::{compress_wav, finish_wav, Compressor, JitanError, WavStep};
use siglus_scene_vm::audio::sfx_engine::{
    koe_name, sound_source, SfxEngine, SfxError, SoundAction, SoundSource, TrackKind,
};
use siglus_scene_vm::audio::wav::{
    find_parts, pcm16_to_wav_bytes, wav_duration_ms, Pcm16, WavError, WavFormat,
};

const MS: u128 = 1_000_000;

/// Chooses the piece that matches best, and gives the finished samples.
fn run(mut c: Compressor) -> Compressor {
    while let Some(range) = c.candidates() {
        let mut best = range.begin;
        let mut best_score = f64::NEG_INFINITY;
        for source in range.begin..=range.end {
            let sums = c.correlation(source);
            let norm = (sums.there as f64 * sums.piece as f64).sqrt().max(1.0);
            let distance = source.abs_diff(range.expected) as f64;
            let score = sums.cross as f64 / norm - distance * 1e-8;
            if score > best_score {
                best_score = score;
                best = source;
            }
        }
        c.place(best);
    }
    c
}

fn sine(rate: usize, seconds: usize) -> Vec<i16> {
    (0..rate * seconds)
        .map(|i| {
            ((i as f64 * 440.0 * std::f64::consts::TAU / rate as f64).sin() * 10000.0) as i16
        })
        .collect()
}

#[test]
fn compression_changes_duration_without_transposing_pitch() {
    let rate = 16000;
    let input: Vec<i16> = sine(rate, 2);
    for speed in [150, 200, 300, 400] {
        let out = run(Compressor::begin_pcm(input.clone(), 1, rate, speed)).finish();
        assert_eq!(out.len(), input.len() * 100 / speed);
        let crossings = out.windows(2).filter(|v| v[0] <= 0 && v[1] > 0).count();
        let frequency = crossings as f64 * rate as f64 / out.len() as f64;
        assert!((frequency - 440.0).abs() < 12.0, "{speed}%: {frequency} Hz");
    }
}

#[test]
fn normal_rate_is_byte_identical_and_invalid_pcm_is_rejected() {
    let bytes = vec![1, 2, 3];
    assert!(matches!(compress_wav(bytes.clone(), 100), Ok(WavStep::Unchanged(b)) if b == bytes));
    assert!(compress_wav(vec![0; 44], 150).is_err());
}

#[test]
fn compressed_file_is_a_wav_file_of_the_new_length() {
    let samples = sine(8000, 1);
    let wav = pcm16_to_wav_bytes(&Pcm16 { channels: 1, sample_rate: 8000, samples });
    assert_eq!(wav_duration_ms(&wav), Some(1000));
    let begun = match compress_wav(wav.clone(), 200) {
        Ok(WavStep::Compress(c)) => c,
        other => panic!("unexpected {other:?}"),
    };
    let out = finish_wav(run(begun));
    assert_eq!(wav_duration_ms(&out), Some(500));
    assert_eq!(&out[44..48], &wav[44..48]);
    let short = pcm16_to_wav_bytes(&Pcm16 { channels: 1, sample_rate: 8000, samples: vec![7; 799] });
    assert!(matches!(compress_wav(short.clone(), 400), Ok(WavStep::Unchanged(b)) if b == short));
}

#[test]
fn unusable_voices_are_refused_with_their_reason() {
    let good = pcm16_to_wav_bytes(&Pcm16 { channels: 2, sample_rate: 8000, samples: vec![0; 4000] });
    assert!(matches!(compress_wav(vec![0; 10], 150), Err(JitanError::Wav(WavError::NotWave))));
    let mut cut = good.clone();
    cut.truncate(100);
    assert!(matches!(compress_wav(cut, 150), Err(JitanError::Wav(WavError::TruncatedChunk))));
    let mut short_format = good.clone();
    short_format[16] = 8;
    assert!(matches!(
        compress_wav(short_format, 150),
        Err(JitanError::Wav(WavError::ShortFormat))
    ));
    let mut eight_bits = good.clone();
    eight_bits[34] = 8;
    assert!(matches!(compress_wav(eight_bits, 150), Err(JitanError::UnsupportedFormat)));
    let mut no_data = good.clone();
    no_data[36] = b'x';
    assert!(matches!(compress_wav(no_data, 150), Err(JitanError::Wav(WavError::MissingData))));
    let mut no_format = good.clone();
    no_format[12] = b'x';
    assert!(matches!(compress_wav(no_format, 150), Err(JitanError::Wav(WavError::MissingFormat))));
    let odd = pcm16_to_wav_bytes(&Pcm16 { channels: 2, sample_rate: 8000, samples: vec![0; 4001] });
    assert!(matches!(compress_wav(odd, 150), Err(JitanError::UnalignedSamples)));
}

#[test]
fn written_samples_are_found_again() {
    let pcm = Pcm16 { channels: 2, sample_rate: 44100, samples: vec![-1, 2, i16::MIN, i16::MAX] };
    let wav = pcm16_to_wav_bytes(&pcm);
    let format = WavFormat { kind: 1, channels: 2, rate: 44100, bits: 16 };
    assert_eq!(find_parts(&wav), Ok((Some(format), Some((44, 52)))));
    assert_eq!(&wav[44..], &[0xff, 0xff, 2, 0, 0, 0x80, 0xff, 0x7f]);
    assert_eq!(wav_duration_ms(&[]), None);
}

fn engine() -> SfxEngine {
    SfxEngine::new("game", "wav", TrackKind::Pcm, 3)
}

fn second_long() -> Vec<u8> {
    pcm16_to_wav_bytes(&Pcm16 { channels: 1, sample_rate: 8000, samples: vec![0; 8000] })
}

fn play(e: &mut SfxEngine, slot: usize, looping: bool, ready: bool, now: u128) -> Vec<SoundAction> {
    e.play_decoded_wav_in_slot_with_options(slot, "a", &second_long(), looping, 0, ready, true, now)
        .unwrap()
}

#[test]
fn sound_ends_after_its_duration() {
    let mut e = engine();
    let orders = play(&mut e, 1, false, false, 0);
    assert_eq!(
        orders,
        vec![
            SoundAction::Start { looping: false },
            SoundAction::SetVolume { raw: 255, fade_ms: 0 },
        ]
    );
    assert_eq!(e.last_name_slot(1), Some("a"));
    assert!(e.is_playing_slot(1, 999 * MS).0);
    assert!(e.is_playing_any(999 * MS).0);
    let (heard, orders) = e.is_playing_slot(1, 1000 * MS);
    assert!(!heard);
    assert_eq!(orders, vec![SoundAction::Release]);
    assert_eq!(e.last_name_slot(1), None);
    assert!(!e.is_playing_any(1000 * MS).0);
    assert!(!e.is_playing_slot(9, 0).0);
}

#[test]
fn pause_moves_the_end_by_its_length() {
    let mut e = engine();
    play(&mut e, 0, false, false, 0);
    assert_eq!(e.pause_slot(0, None, 400 * MS), vec![SoundAction::Pause { fade_ms: 0 }]);
    assert!(!e.is_playing_slot(0, 5000 * MS).0);
    let orders = e.resume_slot(0, 0, 0, 2400 * MS);
    assert_eq!(
        orders,
        vec![SoundAction::Resume, SoundAction::SetVolume { raw: 255, fade_ms: 0 }]
    );
    assert!(e.is_playing_slot(0, 2999 * MS).0);
    assert!(!e.is_playing_slot(0, 3000 * MS).0);
}

#[test]
fn ready_sound_waits_and_starts_after_its_delay() {
    let mut e = engine();
    let orders = play(&mut e, 0, false, true, 0);
    assert_eq!(orders[2], SoundAction::Pause { fade_ms: 0 });
    assert!(!e.is_playing_slot(0, 10_000 * MS).0);
    assert_eq!(e.resume_slot(0, 250, 500, 10_000 * MS), vec![]);
    assert!(e.needs_tick());
    assert_eq!(e.tick(10_499 * MS), vec![]);
    let orders = e.tick(10_500 * MS);
    assert_eq!(
        orders,
        vec![
            (0, SoundAction::Mute),
            (0, SoundAction::Resume),
            (0, SoundAction::SetVolume { raw: 255, fade_ms: 250 }),
        ]
    );
    assert!(!e.needs_tick());
    assert!(e.is_playing_slot(0, 11_499 * MS).0);
    assert!(!e.is_playing_slot(0, 11_500 * MS).0);
}

#[test]
fn stop_with_a_fade_is_seen_until_it_is_over() {
    let mut e = engine();
    play(&mut e, 0, true, false, 0);
    assert!(e.is_playing_slot(0, u64::MAX as u128).0);
    assert_eq!(e.stop_slot(0, Some(300), 0), vec![SoundAction::Stop { fade_ms: 300 }]);
    assert!(!e.is_playing_slot(0, 100 * MS).0);
    assert!(e.is_fading_slot(0, 299 * MS).0);
    assert!(!e.is_fading_slot(0, 300 * MS).0);
    play(&mut e, 0, true, false, 0);
    play(&mut e, 2, true, false, 0);
    assert_eq!(
        e.stop_all(None, 0),
        vec![
            (0, SoundAction::Stop { fade_ms: 0 }),
            (0, SoundAction::Release),
            (2, SoundAction::Stop { fade_ms: 0 }),
            (2, SoundAction::Release),
        ]
    );
}

#[test]
fn slot_that_does_not_exist_is_refused() {
    let mut e = engine();
    let r = e.play_decoded_wav_in_slot_with_options(3, "a", &[], false, 0, false, true, 0);
    assert_eq!(r, Err(SfxError::SlotOutOfRange));
    assert_eq!(e.slot_cnt(), 3);
    assert_eq!(e.slot_volume_raw(7), 255);
}

#[test]
fn unknown_duration_is_two_seconds_and_a_failed_start_empties_the_slot() {
    let mut e = engine();
    e.play_decoded_wav_in_slot_with_options(0, "x", &[1, 2], false, 30, false, true, 0).unwrap();
    assert_eq!(e.slots[0].until, Some(2000 * MS));
    assert_eq!(e.start_failed(0), vec![SoundAction::Release]);
    assert_eq!(e.last_name_slot(0), None);
    assert_eq!(e.set_slot_volume_raw_fade(0, 9, -5), vec![]);
    assert_eq!(e.slot_volume_raw(0), 9);
}

#[test]
fn sound_files_are_looked_for_in_their_order() {
    let e = engine();
    let probes = e.probe_paths("se/a");
    assert_eq!(probes[0], "se/a");
    assert_eq!(probes[1], "game/wav/se/a");
    assert_eq!(probes[2], "game/wav/se/a.wav");
    assert_eq!(probes[6], "game/wav/se/a.ovk");
    let some = vec!["game/wav/se/a.ogg".to_string(), "game/wav/se/a.ovk".to_string()];
    assert_eq!(e.resolve_path("se/a", &some, None), Ok("game/wav/se/a.ogg".to_string()));
    assert_eq!(
        e.resolve_path("se/a", &some, Some("append/a.nwa".to_string())),
        Ok("append/a.nwa".to_string())
    );
    assert_eq!(e.resolve_path("se/b", &some, None), Err(SfxError::NotFound));
    let named = vec!["game/wav/c.mp3".to_string(), "game/wav/c.wav".to_string()];
    assert_eq!(e.resolve_path("c.mp3", &named, None), Ok("game/wav/c.mp3".to_string()));
    assert_eq!(sound_source("x/A.WAV"), Ok(SoundSource::Wav));
    assert_eq!(sound_source("a.owp"), Ok(SoundSource::Decode));
    assert_eq!(sound_source("a.mp3"), Err(SfxError::UnsupportedExtension));
    assert_eq!(koe_name(-12), "koe:-12");
    assert_eq!(
        e.plan_file_name_in_slot(0, "se/a", &some, None),
        Ok(("game/wav/se/a.ogg".to_string(), SoundSource::Decode))
    );
    assert_eq!(
        e.plan_file_name_in_slot(99, "se/a", &some, None),
        Err(SfxError::SlotOutOfRange)
    );
    assert_eq!(
        e.plan_file_name_in_slot(0, "c.mp3", &named, None),
        Err(SfxError::UnsupportedExtension)
    );
    assert_eq!(e.plan_koe_no_in_slot(0, 7), Ok("koe:7".to_string()));
    assert_eq!(e.plan_koe_no_in_slot(99, 7), Err(SfxError::SlotOutOfRange));
}

#[test]
fn engines_have_their_slots_and_tracks() {
    let mut pcm = PcmEngine::new("g");
    assert_eq!(pcm.inner.slot_cnt(), 16);
    let order = pcm.set_volume_raw_fade(12, 400);
    assert_eq!((order.track, order.raw, order.fade_ms), (TrackKind::Pcm, 12, Some(400)));
    assert_eq!(pcm.volume_raw(), 12);
    let mut koe = KoeEngine::new("g");
    assert_eq!(koe.inner.slot_cnt(), 1);
    koe.play_decoded_wav_in_slot(0, &koe_name(5), &second_long(), false, false, 0).unwrap();
    assert!(koe.is_playing_any(0).0);
    assert_eq!(koe.stop(None, 1), vec![]);
    assert!(!koe.is_playing_any(1).0);
    let mut se = SeEngine::new("g");
    se.play_decoded_wav_in_slot(0, "click", &second_long(), false, true, 0).unwrap();
    assert_eq!(se.last_name(), Some("click"));
    assert_eq!(se.stop(None, 0).len(), 2);
}

#[test]
fn ring_gives_samples_in_order_and_drops_the_oldest() {
    let mut ring = SampleRing::new(0.0f32, 4);
    assert_eq!(ring.push(&[1.0, 2.0, 3.0]), 0);
    assert_eq!(ring.drain(2), vec![1.0, 2.0]);
    assert_eq!(ring.push(&[4.0, 5.0, 6.0, 7.0]), 1);
    assert_eq!(ring.drain(10), vec![4.0, 5.0, 6.0, 7.0]);
    assert_eq!(ring.drain(10), Vec::<f32>::new());
    assert_eq!(ring.push(&[1.0, 2.0, 3.0, 4.0, 5.0]), 2);
    assert_eq!(ring.drain(9), vec![2.0, 3.0, 4.0, 5.0]);
}

#[test]
fn backend_settings_and_answers() {
    assert_eq!(PcmBackendSettings::default().sample_rate, HOST_SAMPLE_RATE);
    let (mut backend, rate) = PcmBackend::setup(PcmBackendSettings { sample_rate: 0 });
    assert_eq!(rate, 48000);
    assert_eq!(backend.start(false), Err(PcmBackendError));
    assert!(!backend.started);
    assert_eq!(backend.start(true), Ok(()));
    assert!(backend.started);
    assert_eq!(PcmBackendError.text(), "kira pcm backend unavailable");
    assert_eq!(read_answer(false, 1, true, 0), -1);
    assert_eq!(read_answer(true, 0, true, 0), -1);
    assert_eq!(read_answer(true, 1, false, 0), -2);
    assert_eq!(read_answer(true, 9, true, 7), 7);
    assert_eq!(next_slice(0, 1), (SLICE_NANOS, SLICE_NANOS - 1));
    assert_eq!(next_slice(0, 9_000_000), (9_000_000, 0));
}
