//! Reading and writing the parts of a WAV file.

use vstd::prelude::*;
use crate::bytes;
use crate::bytes::{push_u16, push_u32, read_u16, read_u32};

verus! {

/// Whether the four bytes at `at` are `tag`.
pub open spec fn tag_at(b: Seq<u8>, at: int, tag: Seq<u8>) -> bool {
    b[at] == tag[0] && b[at + 1] == tag[1] && b[at + 2] == tag[2] && b[at + 3] == tag[3]
}

pub open spec fn riff() -> Seq<u8> {
    seq![0x52u8, 0x49u8, 0x46u8, 0x46u8]
}

pub open spec fn wave() -> Seq<u8> {
    seq![0x57u8, 0x41u8, 0x56u8, 0x45u8]
}

pub open spec fn fmt() -> Seq<u8> {
    seq![0x66u8, 0x6du8, 0x74u8, 0x20u8]
}

pub open spec fn data() -> Seq<u8> {
    seq![0x64u8, 0x61u8, 0x74u8, 0x61u8]
}

fn has_tag(b: &[u8], at: usize, t0: u8, t1: u8, t2: u8, t3: u8) -> (r: bool)
    requires
        at + 4 <= b@.len(),
    ensures
        r == tag_at(b@, at as int, seq![t0, t1, t2, t3]),
{
    let _len: usize = b.len();
    b[at] == t0 && b[at + 1] == t1 && b[at + 2] == t2 && b[at + 3] == t3
}

/// Whether a file begins as a WAV file does.
pub open spec fn is_wave(b: Seq<u8>) -> bool {
    b.len() >= 12 && tag_at(b, 0, riff()) && tag_at(b, 8, wave())
}

pub fn begins_as_wave(b: &[u8]) -> (r: bool)
    ensures
        r == is_wave(b@),
{
    b.len() >= 12 && has_tag(b, 0, 0x52, 0x49, 0x46, 0x46) && has_tag(b, 8, 0x57, 0x41, 0x56, 0x45)
}

// How long a file plays.

/// The bytes per second and the size of the samples, from the chunks at `pos`
/// on. The search ends as soon as both are known.
pub open spec fn rate_and_size(
    b: Seq<u8>,
    pos: int,
    rate: Option<int>,
    size: Option<int>,
) -> (Option<int>, Option<int>)
    decreases b.len() + 1 - pos,
{
    if pos < 0 || pos + 8 > b.len() {
        (rate, size)
    } else {
        let n = bytes::u32_at(b, pos + 4);
        let body = pos + 8;
        if n < 0 || body + n > b.len() {
            (rate, size)
        } else {
            let new_rate = if tag_at(b, pos, fmt()) && n >= 16 {
                Some(bytes::u32_at(b, body + 8))
            } else {
                rate
            };
            let new_size = if tag_at(b, pos, data()) {
                Some(n)
            } else {
                size
            };
            if new_rate is Some && new_size is Some {
                (new_rate, new_size)
            } else {
                rate_and_size(b, body + n + n % 2, new_rate, new_size)
            }
        }
    }
}

/// How many milliseconds a file plays.
pub open spec fn duration(b: Seq<u8>) -> Option<int> {
    if b.len() < 44 || !is_wave(b) {
        None
    } else {
        match rate_and_size(b, 12, None, None) {
            (Some(rate), Some(size)) => if rate == 0 {
                None
            } else {
                Some(size * 1000 / rate)
            },
            _ => None,
        }
    }
}

pub open spec fn opt_u32(v: Option<u32>) -> Option<int> {
    match v {
        Some(n) => Some(n as int),
        None => None,
    }
}

/// How many milliseconds a file plays, where its chunks say so.
pub fn wav_duration_ms(wav: &[u8]) -> (r: Option<u64>)
    ensures
        match r {
            Some(ms) => duration(wav@) == Some(ms as int),
            None => duration(wav@) is None,
        },
{
    let len: usize = wav.len();
    if len < 44 || !begins_as_wave(wav) {
        return None;
    }
    let mut pos: usize = 12;
    let mut byte_rate: Option<u32> = None;
    let mut data_size: Option<u32> = None;
    let ghost found = rate_and_size(wav@, 12, None, None);
    loop
        invariant
            len == wav@.len(),
            pos <= len,
            !(byte_rate is Some && data_size is Some) ==> found == rate_and_size(
                wav@,
                pos as int,
                opt_u32(byte_rate),
                opt_u32(data_size),
            ),
            byte_rate is Some && data_size is Some ==> found == (
                opt_u32(byte_rate),
                opt_u32(data_size),
            ),
        ensures
            found == (opt_u32(byte_rate), opt_u32(data_size)),
        decreases len - pos,
    {
        if byte_rate.is_some() && data_size.is_some() {
            break;
        }
        if len - pos < 8 {
            break;
        }
        let word: u32 = read_u32(wav, pos + 4);
        let size: usize = word as usize;
        let body: usize = pos + 8;
        if size > len - body {
            break;
        }
        if has_tag(wav, pos, 0x66, 0x6d, 0x74, 0x20) {
            if size >= 16 {
                byte_rate = Some(read_u32(wav, body + 8));
            }
        } else if has_tag(wav, pos, 0x64, 0x61, 0x74, 0x61) {
            data_size = Some(word);
        }
        pos = body + size;
        if size % 2 != 0 && pos < len {
            pos = pos + 1;
        }
        proof {
            let next = body + size + (size as int) % 2;
            let r = opt_u32(byte_rate);
            let s = opt_u32(data_size);
            assert(rate_and_size(wav@, next, r, s) == rate_and_size(wav@, pos as int, r, s));
        }
    }
    match byte_rate {
        Some(rate) => {
            if rate == 0 {
                return None;
            }
            match data_size {
                Some(size) => Some(size as u64 * 1000 / rate as u64),
                None => None,
            }
        },
        None => None,
    }
}

// The format and the samples.

/// Why a file cannot be used.
#[derive(Debug, Clone, Copy, PartialEq, Eq, Structural)]
pub enum WavError {
    NotWave,
    TruncatedChunk,
    ShortFormat,
    MissingFormat,
    MissingData,
}

/// What a format chunk says.
#[derive(Debug, Clone, Copy, PartialEq, Eq, Structural)]
pub struct WavFormat {
    pub kind: u16,
    pub channels: u16,
    pub rate: u32,
    pub bits: u16,
}

pub open spec fn format_at(b: Seq<u8>, body: int) -> WavFormat {
    WavFormat {
        kind: bytes::u16_at(b, body) as u16,
        channels: bytes::u16_at(b, body + 2) as u16,
        rate: bytes::u32_at(b, body + 4) as u32,
        bits: bytes::u16_at(b, body + 14) as u16,
    }
}

/// The format and the place of the samples, from the chunks at `pos` on. Of
/// several chunks of a kind the last counts.
pub open spec fn parts_from(
    b: Seq<u8>,
    pos: int,
    format: Option<WavFormat>,
    samples: Option<(int, int)>,
) -> Result<(Option<WavFormat>, Option<(int, int)>), WavError>
    decreases b.len() + 1 - pos,
{
    if pos < 0 || pos + 8 > b.len() {
        Ok((format, samples))
    } else {
        let n = bytes::u32_at(b, pos + 4);
        let body = pos + 8;
        if n < 0 || body + n > b.len() {
            Err(WavError::TruncatedChunk)
        } else if tag_at(b, pos, fmt()) {
            if n < 16 {
                Err(WavError::ShortFormat)
            } else {
                parts_from(b, body + n + n % 2, Some(format_at(b, body)), samples)
            }
        } else if tag_at(b, pos, data()) {
            parts_from(b, body + n + n % 2, format, Some((body, body + n)))
        } else {
            parts_from(b, body + n + n % 2, format, samples)
        }
    }
}

/// The format and the samples' bytes of a file.
pub open spec fn parts(b: Seq<u8>) -> Result<
    (Option<WavFormat>, Option<(int, int)>),
    WavError,
> {
    if is_wave(b) {
        parts_from(b, 12, None, None)
    } else {
        Err(WavError::NotWave)
    }
}

pub open spec fn opt_range(r: Option<(usize, usize)>) -> Option<(int, int)> {
    match r {
        Some(p) => Some((p.0 as int, p.1 as int)),
        None => None,
    }
}

/// The samples that are found lie inside the file.
pub proof fn samples_lie_inside_the_file(
    b: Seq<u8>,
    pos: int,
    format: Option<WavFormat>,
    samples: Option<(int, int)>,
)
    requires
        samples matches Some(p) ==> 0 <= p.0 <= p.1 <= b.len(),
    ensures
        parts_from(b, pos, format, samples) matches Ok((_, Some(p))) ==> 0 <= p.0 <= p.1 <= b.len(),
    decreases b.len() + 1 - pos,
{
    if pos < 0 || pos + 8 > b.len() {
    } else {
        let n = bytes::u32_at(b, pos + 4);
        let body = pos + 8;
        if n < 0 || body + n > b.len() {
        } else if tag_at(b, pos, fmt()) {
            if n >= 16 {
                samples_lie_inside_the_file(b, body + n + n % 2, Some(format_at(b, body)), samples);
            }
        } else if tag_at(b, pos, data()) {
            samples_lie_inside_the_file(b, body + n + n % 2, format, Some((body, body + n)));
        } else {
            samples_lie_inside_the_file(b, body + n + n % 2, format, samples);
        }
    }
}

/// Finds the format and the samples of a file.
pub fn find_parts(wav: &[u8]) -> (r: Result<
    (Option<WavFormat>, Option<(usize, usize)>),
    WavError,
>)
    ensures
        match r {
            Ok((format, samples)) => parts(wav@) == Ok::<_, WavError>((format, opt_range(samples)))
                && (samples matches Some(p) ==> p.0 <= p.1 <= wav@.len()),
            Err(e) => parts(wav@) == Err::<(Option<WavFormat>, Option<(int, int)>), WavError>(e),
        },
{
    if !begins_as_wave(wav) {
        return Err(WavError::NotWave);
    }
    let len: usize = wav.len();
    let mut pos: usize = 12;
    let mut format: Option<WavFormat> = None;
    let mut samples: Option<(usize, usize)> = None;
    while len - pos >= 8
        invariant
            len == wav@.len(),
            pos <= len,
            is_wave(wav@),
            parts(wav@) == parts_from(wav@, pos as int, format, opt_range(samples)),
            samples matches Some(p) ==> p.0 <= p.1 <= wav@.len(),
        decreases len - pos,
    {
        let word: u32 = read_u32(wav, pos + 4);
        let size: usize = word as usize;
        let body: usize = pos + 8;
        if size > len - body {
            return Err(WavError::TruncatedChunk);
        }
        if has_tag(wav, pos, 0x66, 0x6d, 0x74, 0x20) {
            if size < 16 {
                return Err(WavError::ShortFormat);
            }
            format = Some(
                WavFormat {
                    kind: read_u16(wav, body),
                    channels: read_u16(wav, body + 2),
                    rate: read_u32(wav, body + 4),
                    bits: read_u16(wav, body + 14),
                },
            );
        } else if has_tag(wav, pos, 0x64, 0x61, 0x74, 0x61) {
            samples = Some((body, body + size));
        }
        pos = body + size;
        if size % 2 != 0 && pos < len {
            pos = pos + 1;
        }
        proof {
            let next = body + size + (size as int) % 2;
            let s = opt_range(samples);
            assert(parts_from(wav@, next, format, s) == parts_from(wav@, pos as int, format, s));
        }
    }
    Ok((format, samples))
}

// Writing.

/// Samples of sixteen bits.
#[derive(Debug)]
pub struct Pcm16 {
    pub channels: u16,
    pub sample_rate: u32,
    pub samples: Vec<i16>,
}

/// A sample as an unsigned number of sixteen bits.
pub open spec fn sample_word(v: int) -> int {
    if v < 0 {
        v + 0x1_0000
    } else {
        v
    }
}

/// How samples are written.
pub open spec fn sample_bytes(samples: Seq<i16>) -> Seq<u8>
    decreases samples.len(),
{
    if samples.len() == 0 {
        Seq::empty()
    } else {
        sample_bytes(samples.drop_last()) + bytes::u16_le(sample_word(samples.last() as int))
    }
}

/// The sample at `at`.
pub open spec fn sample_at(b: Seq<u8>, at: int) -> int {
    let w = bytes::u16_at(b, at);
    if w >= 0x8000 {
        w - 0x1_0000
    } else {
        w
    }
}

/// The first 44 bytes of a written file.
pub open spec fn header(channels: int, rate: int, size: int) -> Seq<u8> {
    riff() + bytes::u32_le((36 + size) % 0x1_0000_0000) + wave() + fmt() + bytes::u32_le(16)
        + bytes::u16_le(1) + bytes::u16_le(channels) + bytes::u32_le(rate) + bytes::u32_le(
        rate * channels * 2 % 0x1_0000_0000,
    ) + bytes::u16_le(channels * 2 % 0x1_0000) + bytes::u16_le(16) + data() + bytes::u32_le(
        size % 0x1_0000_0000,
    )
}

/// A written file.
pub open spec fn file(channels: int, rate: int, samples: Seq<i16>) -> Seq<u8> {
    header(channels, rate, 2 * samples.len() as int) + sample_bytes(samples)
}

fn push_tag(out: &mut Vec<u8>, t0: u8, t1: u8, t2: u8, t3: u8)
    ensures
        final(out)@ == old(out)@ + seq![t0, t1, t2, t3],
{
    out.push(t0);
    out.push(t1);
    out.push(t2);
    out.push(t3);
    proof {
        assert(out@ =~= old(out)@ + seq![t0, t1, t2, t3]);
    }
}

fn to_sample_word(v: i16) -> (w: u16)
    ensures
        w == sample_word(v as int),
{
    if v < 0 {
        (v as i32 + 0x1_0000) as u16
    } else {
        v as u16
    }
}

/// Reads a sample.
pub fn read_sample(b: &[u8], at: usize) -> (v: i16)
    requires
        at + 2 <= b@.len(),
    ensures
        v == sample_at(b@, at as int),
{
    let w: u16 = read_u16(b, at);
    if w >= 0x8000 {
        (w as i32 - 0x1_0000) as i16
    } else {
        w as i16
    }
}

/// The bytes of a file with these samples.
pub fn pcm16_to_wav_bytes(pcm: &Pcm16) -> (out: Vec<u8>)
    requires
        44 + 2 * pcm.samples@.len() <= usize::MAX,
        2 * pcm.samples@.len() <= u64::MAX - 44,
    ensures
        out@ == file(pcm.channels as int, pcm.sample_rate as int, pcm.samples@),
{
    let n: usize = pcm.samples.len();
    let size: u64 = 2 * n as u64;
    proof {
        let a = pcm.sample_rate as u64;
        let b = pcm.channels as u64;
        assert(a * b * 2 <= 0xffff_ffff * 0xffff * 2) by (nonlinear_arith)
            requires
                a <= 0xffff_ffff,
                b <= 0xffff,
        ;
        assert(0 <= a * b <= 0xffff_ffff * 0xffff) by (nonlinear_arith)
            requires
                a <= 0xffff_ffff,
                b <= 0xffff,
        ;
    }
    let bytes_per_second: u64 = pcm.sample_rate as u64 * pcm.channels as u64 * 2 % 0x1_0000_0000;
    let mut out: Vec<u8> = Vec::new();
    push_tag(&mut out, 0x52, 0x49, 0x46, 0x46);
    push_u32(&mut out, ((36 + size) % 0x1_0000_0000) as u32);
    push_tag(&mut out, 0x57, 0x41, 0x56, 0x45);
    push_tag(&mut out, 0x66, 0x6d, 0x74, 0x20);
    push_u32(&mut out, 16);
    push_u16(&mut out, 1);
    push_u16(&mut out, pcm.channels);
    push_u32(&mut out, pcm.sample_rate);
    push_u32(&mut out, bytes_per_second as u32);
    push_u16(&mut out, (pcm.channels as u32 * 2 % 0x1_0000) as u16);
    push_u16(&mut out, 16);
    push_tag(&mut out, 0x64, 0x61, 0x74, 0x61);
    push_u32(&mut out, (size % 0x1_0000_0000) as u32);
    let ghost head = header(pcm.channels as int, pcm.sample_rate as int, 2 * n as int);
    proof {
        assert(pcm.samples@.take(0) =~= Seq::<i16>::empty());
        assert(out@ =~= head);
        assert(out@ =~= head + sample_bytes(pcm.samples@.take(0)));
    }
    let mut i: usize = 0;
    while i < n
        invariant
            n == pcm.samples@.len(),
            i <= n,
            out@ == head + sample_bytes(pcm.samples@.take(i as int)),
        decreases n - i,
    {
        let w: u16 = to_sample_word(pcm.samples[i]);
        push_u16(&mut out, w);
        proof {
            let taken = pcm.samples@.take(i + 1);
            assert(taken.drop_last() =~= pcm.samples@.take(i as int));
            assert(taken.last() == pcm.samples@[i as int]);
            assert(out@ =~= head + sample_bytes(taken));
        }
        i = i + 1;
    }
    proof {
        assert(pcm.samples@.take(i as int) =~= pcm.samples@);
    }
    out
}

proof fn lemma_sample_bytes(samples: Seq<i16>)
    ensures
        sample_bytes(samples).len() == 2 * samples.len(),
        forall|i: int|
            0 <= i < samples.len() ==> sample_at(sample_bytes(samples), 2 * i)
                == #[trigger] samples[i],
    decreases samples.len(),
{
    if samples.len() > 0 {
        let front = samples.drop_last();
        lemma_sample_bytes(front);
        let w = sample_word(samples.last() as int);
        bytes::lemma_u16_le(w);
        let all = sample_bytes(samples);
        let head = sample_bytes(front);
        assert forall|i: int| 0 <= i < samples.len() implies sample_at(all, 2 * i)
            == #[trigger] samples[i] by {
            if i < front.len() {
                assert(front[i] == samples[i]);
                assert(all[2 * i] == head[2 * i]);
                assert(all[2 * i + 1] == head[2 * i + 1]);
            } else {
                assert(all[2 * i] == bytes::u16_le(w)[0]);
                assert(all[2 * i + 1] == bytes::u16_le(w)[1]);
            }
        }
    }
}

/// What was written is read back: the format and every sample.
pub proof fn written_samples_are_read_back(channels: u16, rate: u32, samples: Seq<i16>)
    requires
        36 + 2 * samples.len() <= u32::MAX,
    ensures
        parts(file(channels as int, rate as int, samples)) == Ok::<_, WavError>(
            (
                Some(WavFormat { kind: 1, channels, rate, bits: 16 }),
                Some((44int, 44 + 2 * samples.len() as int)),
            ),
        ),
        forall|i: int|
            0 <= i < samples.len() ==> sample_at(
                file(channels as int, rate as int, samples),
                44 + 2 * i,
            ) == #[trigger] samples[i],
{
    let size = 2 * samples.len() as int;
    let c = channels as int;
    let r = rate as int;
    let all = file(c, r, samples);
    let body = sample_bytes(samples);
    lemma_sample_bytes(samples);
    let head = header(c, r, size);
    bytes::lemma_u32_le(16);
    bytes::lemma_u32_le(size);
    bytes::lemma_u32_le(r);
    bytes::lemma_u16_le(1);
    bytes::lemma_u16_le(16);
    bytes::lemma_u16_le(c);
    bytes::lemma_le_len(36 + size);
    bytes::lemma_le_len(r * c * 2 % 0x1_0000_0000);
    bytes::lemma_le_len(c * 2 % 0x1_0000);
    assert(head.len() == 44);
    assert(all.len() == 44 + size);
    assert(tag_at(all, 0, riff()));
    assert(tag_at(all, 8, wave()));
    assert(tag_at(all, 12, fmt()));
    assert(tag_at(all, 36, data()));
    assert(bytes::u32_at(all, 16) == 16);
    assert(bytes::u32_at(all, 40) == size);
    assert(bytes::u16_at(all, 20) == 1);
    assert(bytes::u16_at(all, 22) == c);
    assert(bytes::u32_at(all, 24) == r);
    assert(bytes::u16_at(all, 34) == 16);
    let f = WavFormat { kind: 1, channels, rate, bits: 16 };
    assert(format_at(all, 20) == f);
    assert(!tag_at(all, 36, fmt()));
    assert(size % 2 == 0);
    assert(parts_from(all, 44 + size, Some(f), Some((44int, 44 + size))) == Ok::<_, WavError>(
        (Some(f), Some((44int, 44 + size))),
    ));
    assert(parts_from(all, 36, Some(f), None) == parts_from(
        all,
        44 + size,
        Some(f),
        Some((44int, 44 + size)),
    ));
    assert(parts_from(all, 12, None, None) == parts_from(all, 36, Some(f), None));
    assert forall|i: int| 0 <= i < samples.len() implies sample_at(all, 44 + 2 * i)
        == #[trigger] samples[i] by {
        assert(all[44 + 2 * i] == body[2 * i]);
        assert(all[44 + 2 * i + 1] == body[2 * i + 1]);
    }
}

/// A file says how long it plays: as many milliseconds as its frames take at its
/// rate, rounded down, however many channels a frame has.
pub proof fn files_play_as_long_as_their_frames(
    channels: u16,
    rate: u32,
    samples: Seq<i16>,
    frames: int,
)
    requires
        36 + 2 * samples.len() <= u32::MAX,
        1 <= channels,
        1 <= rate,
        frames * channels == samples.len(),
        rate * channels * 2 <= u32::MAX,
    ensures
        duration(file(channels as int, rate as int, samples)) matches Some(ms) && rate * ms <= 1000
            * frames < rate * (ms + 1),
{
    let size = 2 * samples.len() as int;
    let c = channels as int;
    let r = rate as int;
    let all = file(c, r, samples);
    written_samples_are_read_back(channels, rate, samples);
    lemma_sample_bytes(samples);
    let speed = r * c * 2;
    assert(speed >= 1) by (nonlinear_arith)
        requires
            r >= 1,
            c >= 1,
            speed == r * c * 2,
    ;
    bytes::lemma_u32_le(16);
    bytes::lemma_u32_le(size);
    bytes::lemma_u32_le(speed);
    bytes::lemma_le_len(36 + size);
    bytes::lemma_le_len(r);
    bytes::lemma_le_len(c);
    bytes::lemma_le_len(1);
    bytes::lemma_le_len(16);
    bytes::lemma_le_len(c * 2 % 0x1_0000);
    assert(all.len() == 44 + size);
    assert(tag_at(all, 0, riff()));
    assert(tag_at(all, 8, wave()));
    assert(tag_at(all, 12, fmt()));
    assert(tag_at(all, 36, data()));
    assert(!tag_at(all, 12, data()));
    assert(!tag_at(all, 36, fmt()));
    assert(bytes::u32_at(all, 16) == 16);
    assert(bytes::u32_at(all, 28) == speed);
    assert(bytes::u32_at(all, 40) == size);
    assert(rate_and_size(all, 36, Some(speed), None) == (Some(speed), Some(size)));
    assert(rate_and_size(all, 12, None, None) == rate_and_size(all, 36, Some(speed), None));
    let ms = size * 1000 / speed;
    vstd::arithmetic::div_mod::lemma_fundamental_div_mod(size * 1000, speed);
    let k = 2 * c;
    assert(size * 1000 == k * (1000 * frames)) by (nonlinear_arith)
        requires
            frames * c == samples.len(),
            size == 2 * samples.len(),
            k == 2 * c,
    ;
    assert(speed * ms == k * (r * ms) && speed * ms + speed == k * (r * (ms + 1)))
        by (nonlinear_arith)
        requires
            speed == r * c * 2,
            k == 2 * c,
    ;
    let (a, b, d) = (r * ms, 1000 * frames, r * (ms + 1));
    assert(a <= b < d) by (nonlinear_arith)
        requires
            k >= 1,
            k * a <= k * b,
            k * b < k * d,
    ;
}

} // verus!
