//! Time compression of voices that keeps their pitch.
//!
//! Short pieces of the voice are laid over one another. Which piece goes on
//! best is chosen by how well it matches what is already there: the compressor
//! gives the sums that the match is computed from, and is told the choice.

use vstd::prelude::*;
use crate::audio::wav;
use crate::audio::wav::{find_parts, pcm16_to_wav_bytes, read_sample, Pcm16, WavError};
use crate::runtime::wipe_linear;

verus! {

/// Why a voice cannot be compressed.
#[derive(Debug, Clone, Copy, PartialEq, Eq, Structural)]
pub enum JitanError {
    Wav(WavError),
    UnsupportedFormat,
    UnalignedSamples,
}

/// How many frames two pieces begin apart.
pub open spec fn hop_of(rate: int) -> int {
    if rate / 80 < 1 {
        1
    } else {
        rate / 80
    }
}

/// How many frames of a piece lie over the one before.
pub open spec fn overlap_of(rate: int) -> int {
    if rate / 110 < 1 {
        1
    } else {
        rate / 110
    }
}

/// How many frames the compressed voice has.
pub open spec fn target_of(frames: int, percent: int) -> int {
    frames * 100 / percent
}

/// A voice that is being compressed.
#[derive(Debug)]
pub struct Compressor {
    pub input: Vec<i16>,
    pub channels: usize,
    pub rate: usize,
    pub percent: usize,
    /// The frames of the voice.
    pub frames: usize,
    /// The frames of the compressed voice.
    pub target: usize,
    pub hop: usize,
    pub overlap: usize,
    pub output: Vec<i16>,
    /// Where the next piece goes.
    pub out_pos: usize,
    /// Where the last piece came from.
    pub previous: usize,
}

/// What may be chosen for the next piece: a frame from `begin` to `end`. The
/// one at `expected` keeps the speed even.
#[derive(Debug, Clone, Copy, PartialEq, Eq, Structural)]
pub struct Candidates {
    pub begin: usize,
    pub end: usize,
    pub expected: usize,
}

/// How a piece matches what is there: the sum of the products of both, and of
/// each with itself, over every fourth frame of the overlap.
#[derive(Debug, Clone, Copy, PartialEq, Eq, Structural)]
pub struct Correlation {
    pub cross: i64,
    pub there: i64,
    pub piece: i64,
}

/// The sum of the products of `n` samples.
pub open spec fn dot(a: Seq<i16>, b: Seq<i16>, at_a: int, at_b: int, n: int) -> int
    decreases n,
{
    if n <= 0 {
        0
    } else {
        dot(a, b, at_a, at_b, n - 1) + a[at_a + n - 1] * b[at_b + n - 1]
    }
}

/// The sum over every fourth frame from `offset` on.
pub open spec fn products(
    a: Seq<i16>,
    b: Seq<i16>,
    frame_a: int,
    frame_b: int,
    channels: int,
    offset: int,
    overlap: int,
) -> int
    decreases overlap + 4 - offset,
{
    if offset >= overlap {
        0
    } else {
        dot(a, b, (frame_a + offset) * channels, (frame_b + offset) * channels, channels)
            + products(a, b, frame_a, frame_b, channels, offset + 4, overlap)
    }
}

/// A sample between `there` and `piece`: the piece counts more the further it
/// goes.
pub open spec fn blended(there: int, piece: int, offset: int, overlap: int) -> int {
    wipe_linear::truncated(there * (overlap - offset) + piece * offset, overlap)
}

/// The output with the piece from frame `best` laid over it at `out_pos`.
pub open spec fn laid_over(
    output: Seq<i16>,
    input: Seq<i16>,
    channels: int,
    out_pos: int,
    best: int,
    overlap: int,
    window: int,
) -> Seq<i16> {
    Seq::new(
        output.len(),
        |at: int|
            {
                let k = at - out_pos * channels;
                if 0 <= k < window * channels {
                    if k / channels < overlap {
                        blended(
                            output[at] as int,
                            input[best * channels + k] as int,
                            k / channels,
                            overlap,
                        ) as i16
                    } else {
                        input[best * channels + k]
                    }
                } else {
                    output[at]
                }
            },
    )
}

/// How many frames at the front are the voice's own.
pub open spec fn first_of(frames: int, target: int, window: int) -> int {
    let a = if window < frames {
        window
    } else {
        frames
    };
    if a < target {
        a
    } else {
        target
    }
}

/// The output before any piece was laid over it.
pub open spec fn first_output(
    input: Seq<i16>,
    channels: int,
    frames: int,
    target: int,
    window: int,
) -> Seq<i16> {
    Seq::new(
        ((target + window) * channels) as nat,
        |i: int| {
            if i < first_of(frames, target, window) * channels {
                input[i]
            } else {
                0
            }
        },
    )
}

proof fn lemma_scale(a: int, b: int, n: int)
    requires
        a <= b,
        n >= 0,
    ensures
        a * n <= b * n,
{
    assert(a * n <= b * n) by (nonlinear_arith)
        requires
            a <= b,
            n >= 0,
    ;
}

proof fn lemma_less(a: int, b: int, n: int)
    requires
        a < b,
        n >= 1,
    ensures
        a * n + n <= b * n,
{
    assert(a * n + n <= b * n) by (nonlinear_arith)
        requires
            a < b,
            n >= 1,
    ;
}

proof fn lemma_product(x: i16, y: i16)
    ensures
        -0x4000_0000 <= x * y <= 0x4000_0000,
{
    let a = x as int;
    let b = y as int;
    assert(-0x4000_0000 <= a * b <= 0x4000_0000) by (nonlinear_arith)
        requires
            -0x8000 <= a <= 0x7fff,
            -0x8000 <= b <= 0x7fff,
    ;
}

fn dot_of(a: &Vec<i16>, b: &Vec<i16>, at_a: usize, at_b: usize, n: usize) -> (r: i64)
    requires
        n <= 8,
        at_a + n <= a@.len(),
        at_b + n <= b@.len(),
    ensures
        r == dot(a@, b@, at_a as int, at_b as int, n as int),
        -8 * 0x4000_0000 <= r <= 8 * 0x4000_0000,
{
    let len_a: usize = a.len();
    let len_b: usize = b.len();
    let mut r: i64 = 0;
    let mut k: usize = 0;
    while k < n
        invariant
            k <= n <= 8,
            at_a + n <= len_a == a@.len(),
            at_b + n <= len_b == b@.len(),
            r == dot(a@, b@, at_a as int, at_b as int, k as int),
            -(k * 0x4000_0000) <= r <= k * 0x4000_0000,
        decreases n - k,
    {
        let x: i16 = a[at_a + k];
        let y: i16 = b[at_b + k];
        proof {
            lemma_product(x, y);
        }
        r = r + x as i64 * y as i64;
        k = k + 1;
    }
    r
}

fn products_of(
    a: &Vec<i16>,
    b: &Vec<i16>,
    frame_a: usize,
    frame_b: usize,
    channels: usize,
    overlap: usize,
) -> (r: i64)
    requires
        1 <= channels <= 8,
        overlap <= 2000,
        (frame_a + overlap) * channels <= a@.len(),
        (frame_b + overlap) * channels <= b@.len(),
    ensures
        r == products(
            a@,
            b@,
            frame_a as int,
            frame_b as int,
            channels as int,
            0,
            overlap as int,
        ),
{
    let len_a: usize = a.len();
    let len_b: usize = b.len();
    let mut r: i64 = 0;
    let mut offset: usize = 0;
    let ghost all = products(
        a@,
        b@,
        frame_a as int,
        frame_b as int,
        channels as int,
        0,
        overlap as int,
    );
    while offset < overlap
        invariant
            1 <= channels <= 8,
            overlap <= 2000,
            offset <= overlap + 3,
            (frame_a + overlap) * channels <= len_a == a@.len(),
            (frame_b + overlap) * channels <= len_b == b@.len(),
            all == r + products(
                a@,
                b@,
                frame_a as int,
                frame_b as int,
                channels as int,
                offset as int,
                overlap as int,
            ),
            -(offset * 0x2_0000_0000) <= r <= offset * 0x2_0000_0000,
        decreases overlap + 4 - offset,
    {
        proof {
            lemma_less(frame_a + offset, frame_a + overlap, channels as int);
            lemma_less(frame_b + offset, frame_b + overlap, channels as int);
            assert(frame_a + offset <= (frame_a + offset) * channels) by (nonlinear_arith)
                requires
                    channels >= 1,
            ;
            assert(frame_b + offset <= (frame_b + offset) * channels) by (nonlinear_arith)
                requires
                    channels >= 1,
            ;
        }
        let d: i64 = dot_of(
            a,
            b,
            (frame_a + offset) * channels,
            (frame_b + offset) * channels,
            channels,
        );
        r = r + d;
        offset = offset + 4;
    }
    r
}

fn blend(there: i16, piece: i16, offset: usize, overlap: usize) -> (r: i16)
    requires
        offset < overlap <= 2000,
    ensures
        r == blended(there as int, piece as int, offset as int, overlap as int),
{
    let o: i32 = overlap as i32;
    let f: i32 = offset as i32;
    proof {
        let a = there as int;
        let b = piece as int;
        let u = o - f;
        assert(-0x8000 * u <= a * u <= 0x7fff * u) by (nonlinear_arith)
            requires
                -0x8000 <= a <= 0x7fff,
                u >= 0,
        ;
        assert(-0x8000 * f <= b * f <= 0x7fff * f) by (nonlinear_arith)
            requires
                -0x8000 <= b <= 0x7fff,
                f >= 0,
        ;
    }
    let v: i32 = there as i32 * (o - f) + piece as i32 * f;
    if v >= 0 {
        let q: u32 = v as u32 / o as u32;
        proof {
            assert(v / o <= 0x7fff) by (nonlinear_arith)
                requires
                    0 <= v <= 0x7fff * o,
                    o > 0,
            ;
        }
        q as i16
    } else {
        let q: u32 = (-v) as u32 / o as u32;
        proof {
            let w = -v as int;
            assert(w / (o as int) <= 0x8000) by (nonlinear_arith)
                requires
                    0 <= w <= 0x8000 * o,
                    o > 0,
            ;
        }
        (-(q as i32)) as i16
    }
}

impl Compressor {
    pub open spec fn window(&self) -> int {
        self.hop + self.overlap
    }

    pub open spec fn wf(&self) -> bool {
        &&& 1 <= self.channels <= 8
        &&& 8000 <= self.rate <= 192000
        &&& 100 <= self.percent <= 400
        &&& self.input@.len() == self.frames * self.channels
        &&& self.input@.len() * 100 + 40000 <= usize::MAX
        &&& self.target == target_of(self.frames as int, self.percent as int)
        &&& self.hop == hop_of(self.rate as int)
        &&& self.overlap == overlap_of(self.rate as int)
        &&& self.output@.len() == (self.target + self.window()) * self.channels
        &&& self.hop >= self.target || self.frames >= self.window()
        &&& self.out_pos >= self.hop
        &&& self.out_pos <= self.target + self.hop
        &&& self.previous <= self.frames
    }

    /// Whether the front of the output is the voice's own.
    pub open spec fn front_is_kept(&self) -> bool {
        forall|i: int|
            0 <= i < first_of(self.frames as int, self.target as int, self.hop as int)
                * self.channels ==> (#[trigger] self.output@[i]) == self.input@[i]
    }

    /// Whether the compressor has just begun.
    pub open spec fn begun(&self, input: Seq<i16>, channels: int, rate: int, percent: int) -> bool {
        &&& self.wf()
        &&& self.input@ == input
        &&& self.channels == channels
        &&& self.rate == rate
        &&& self.percent == percent
        &&& self.output@ == first_output(
            input,
            channels,
            self.frames as int,
            self.target as int,
            self.window(),
        )
        &&& self.out_pos == self.hop
        &&& self.previous == 0
    }

    pub open spec fn last_start(&self) -> int {
        if self.frames < self.window() {
            0
        } else {
            self.frames - self.window()
        }
    }

    /// The frame that keeps the speed even.
    pub open spec fn expected(&self) -> int {
        let e = self.out_pos * self.percent / 100;
        if e < self.last_start() {
            e
        } else {
            self.last_start()
        }
    }

    /// The first frame that may be chosen: not far before the expected one,
    /// and behind the last choice.
    pub open spec fn begin(&self) -> int {
        let search = self.hop / 4;
        let low = if self.expected() < search {
            0
        } else {
            self.expected() - search
        };
        let next = if low < self.previous + 1 {
            self.previous + 1
        } else {
            low
        };
        if next < self.last_start() {
            next
        } else {
            self.last_start()
        }
    }

    /// The last frame that may be chosen.
    pub open spec fn end(&self) -> int {
        let high = self.expected() + self.hop / 4;
        let limited = if high < self.last_start() {
            high
        } else {
            self.last_start()
        };
        if limited < self.begin() {
            self.begin()
        } else {
            limited
        }
    }

    proof fn lemma_target(&self)
        requires
            self.wf(),
        ensures
            self.target <= self.frames,
            self.frames <= self.input@.len(),
            self.frames * 100 <= usize::MAX,
            self.target * self.percent <= self.frames * 100,
            0 <= (self.target + self.window()) * self.channels <= self.input@.len() + 33200,
            self.hop <= 2400,
            self.overlap <= 1745,
            self.hop >= 100,
            self.overlap >= 72,
    {
        let f = self.frames as int;
        let p = self.percent as int;
        let t = self.target as int;
        let c = self.channels as int;
        let w = self.window();
        assert(f <= f * c) by (nonlinear_arith)
            requires
                c >= 1,
                f >= 0,
        ;
        assert(f * 100 / p <= f && (f * 100 / p) * p <= f * 100) by (nonlinear_arith)
            requires
                p >= 100,
                f >= 0,
        ;
        assert((t + w) * c == t * c + w * c) by (nonlinear_arith);
        lemma_scale(t, f, c);
        assert(0 <= w * c <= 33200) by (nonlinear_arith)
            requires
                0 <= w <= 4150,
                1 <= c <= 8,
        ;
        assert(0 <= t * c) by (nonlinear_arith)
            requires
                t >= 0,
                c >= 0,
        ;
    }

    /// Begins to compress the samples of a voice.
    pub fn begin_pcm(input: Vec<i16>, channels: usize, rate: usize, percent: usize) -> (c: Compressor)
        requires
            1 <= channels <= 8,
            8000 <= rate <= 192000,
            100 <= percent <= 400,
            input@.len() % (channels as nat) == 0,
            input@.len() * 100 + 40000 <= usize::MAX,
            hop_of(rate as int) >= target_of(
                input@.len() as int / channels as int,
                percent as int,
            ) || input@.len() as int / channels as int >= hop_of(rate as int) + overlap_of(
                rate as int,
            ),
        ensures
            c.begun(input@, channels as int, rate as int, percent as int),
            c.front_is_kept(),
    {
        let n: usize = input.len();
        let frames: usize = n / channels;
        proof {
            assert(frames * channels == n) by (nonlinear_arith)
                requires
                    channels >= 1,
                    frames == n / channels,
                    n as int % channels as int == 0,
            ;
            assert(frames <= n) by (nonlinear_arith)
                requires
                    channels >= 1,
                    frames * channels == n,
            ;
        }
        let target: usize = frames * 100 / percent;
        let hop: usize = rate / 80;
        let overlap: usize = rate / 110;
        let window: usize = hop + overlap;
        let mut c = Compressor {
            input,
            channels,
            rate,
            percent,
            frames,
            target,
            hop,
            overlap,
            output: Vec::new(),
            out_pos: hop,
            previous: 0,
        };
        proof {
            let f = frames as int;
            let p = percent as int;
            assert(f * 100 / p <= f) by (nonlinear_arith)
                requires
                    p >= 100,
                    f >= 0,
            ;
            let t = target as int;
            let k = channels as int;
            let w = window as int;
            assert((t + w) * k == t * k + w * k) by (nonlinear_arith);
            lemma_scale(t, f, k);
            assert(0 <= w * k <= 33200) by (nonlinear_arith)
                requires
                    0 <= w <= 4150,
                    1 <= k <= 8,
            ;
            assert(0 <= t * k) by (nonlinear_arith)
                requires
                    t >= 0,
                    k >= 0,
            ;
        }
        let size: usize = (target + window) * channels;
        let a: usize = if window < frames {
            window
        } else {
            frames
        };
        let first: usize = if a < target {
            a
        } else {
            target
        };
        proof {
            lemma_scale(first as int, frames as int, channels as int);
            assert(0 <= first * channels) by (nonlinear_arith);
        }
        let own: usize = first * channels;
        let ghost all = first_output(
            c.input@,
            channels as int,
            frames as int,
            target as int,
            window as int,
        );
        let mut output: Vec<i16> = Vec::new();
        let mut i: usize = 0;
        while i < size
            invariant
                i <= size,
                size == (target + window) * channels,
                own == first * channels,
                own <= c.input@.len(),
                first == first_of(frames as int, target as int, window as int),
                all == first_output(
                    c.input@,
                    channels as int,
                    frames as int,
                    target as int,
                    window as int,
                ),
                output@ == all.take(i as int),
                all.len() == size,
            decreases size - i,
        {
            if i < own {
                output.push(c.input[i]);
            } else {
                output.push(0);
            }
            i = i + 1;
            proof {
                assert(output@ =~= all.take(i as int));
            }
        }
        proof {
            assert(all.take(i as int) =~= all);
            let h = first_of(frames as int, target as int, hop as int);
            lemma_scale(h, first as int, channels as int);
            lemma_scale(first as int, target + window, channels as int);
        }
        c.output = output;
        c
    }

    /// What may be chosen for the next piece, or `None` where the voice is
    /// complete.
    pub fn candidates(&self) -> (r: Option<Candidates>)
        requires
            self.wf(),
        ensures
            match r {
                Some(c) => {
                    &&& self.out_pos < self.target
                    &&& c.expected == self.expected()
                    &&& c.begin == self.begin()
                    &&& c.end == self.end()
                    &&& c.begin <= c.end <= self.frames - self.window()
                },
                None => self.out_pos >= self.target,
            },
    {
        if self.out_pos >= self.target {
            return None;
        }
        proof {
            self.lemma_target();
            lemma_scale(self.out_pos as int, self.target as int, self.percent as int);
            assert(0 <= self.out_pos * self.percent) by (nonlinear_arith);
        }
        let last: usize = self.frames - (self.hop + self.overlap);
        let even: usize = self.out_pos * self.percent / 100;
        let expected: usize = if even < last {
            even
        } else {
            last
        };
        let search: usize = self.hop / 4;
        let low: usize = if expected < search {
            0
        } else {
            expected - search
        };
        let next: usize = if low < self.previous + 1 {
            self.previous + 1
        } else {
            low
        };
        let begin: usize = if next < last {
            next
        } else {
            last
        };
        let high: usize = expected + search;
        let limited: usize = if high < last {
            high
        } else {
            last
        };
        let end: usize = if limited < begin {
            begin
        } else {
            limited
        };
        Some(Candidates { begin, end, expected })
    }

    proof fn lemma_room(&self, source: int)
        requires
            self.wf(),
            self.out_pos < self.target,
            0 <= source <= self.frames - self.window(),
        ensures
            0 <= (self.out_pos + self.window()) * self.channels <= self.output@.len(),
            0 <= (source + self.window()) * self.channels <= self.input@.len(),
            0 <= (self.out_pos + self.overlap) * self.channels <= self.output@.len(),
            0 <= (source + self.overlap) * self.channels <= self.input@.len(),
            (self.out_pos + self.window()) * self.channels == self.out_pos * self.channels
                + self.window() * self.channels,
            (source + self.window()) * self.channels == source * self.channels + self.window()
                * self.channels,
            0 <= self.out_pos * self.channels,
            0 <= source * self.channels,
            0 <= self.window() * self.channels,
    {
        let c = self.channels as int;
        let w = self.window();
        let p = self.out_pos as int;
        lemma_scale(p + w, self.target + w, c);
        lemma_scale(source + w, self.frames as int, c);
        lemma_scale(p + self.overlap, p + w, c);
        lemma_scale(source + self.overlap, source + w, c);
        lemma_scale(0, p, c);
        lemma_scale(0, source, c);
        lemma_scale(0, w, c);
        lemma_scale(0, p + self.overlap, c);
        lemma_scale(0, source + self.overlap, c);
        lemma_scale(0, p + w, c);
        lemma_scale(0, source + w, c);
        assert((p + w) * c == p * c + w * c) by (nonlinear_arith);
        assert((source + w) * c == source * c + w * c) by (nonlinear_arith);
    }

    /// How the piece from frame `source` matches what is there.
    pub fn correlation(&self, source: usize) -> (r: Correlation)
        requires
            self.wf(),
            self.out_pos < self.target,
            source <= self.frames - self.window(),
        ensures
            ({
                let p = self.out_pos as int;
                let s = source as int;
                let c = self.channels as int;
                let o = self.overlap as int;
                &&& r.cross == products(self.output@, self.input@, p, s, c, 0, o)
                &&& r.there == products(self.output@, self.output@, p, p, c, 0, o)
                &&& r.piece == products(self.input@, self.input@, s, s, c, 0, o)
            }),
    {
        proof {
            self.lemma_target();
            self.lemma_room(source as int);
        }
        Correlation {
            cross: products_of(
                &self.output,
                &self.input,
                self.out_pos,
                source,
                self.channels,
                self.overlap,
            ),
            there: products_of(
                &self.output,
                &self.output,
                self.out_pos,
                self.out_pos,
                self.channels,
                self.overlap,
            ),
            piece: products_of(
                &self.input,
                &self.input,
                source,
                source,
                self.channels,
                self.overlap,
            ),
        }
    }

    /// Lays the piece from frame `best` over the output.
    pub fn place(&mut self, best: usize)
        requires
            old(self).wf(),
            old(self).out_pos < old(self).target,
            best <= old(self).frames - old(self).window(),
        ensures
            final(self).wf(),
            final(self).output@ == laid_over(
                old(self).output@,
                old(self).input@,
                old(self).channels as int,
                old(self).out_pos as int,
                best as int,
                old(self).overlap as int,
                old(self).window(),
            ),
            final(self).previous == best,
            final(self).out_pos == old(self).out_pos + old(self).hop,
            *final(self) == (Compressor {
                output: final(self).output,
                previous: final(self).previous,
                out_pos: final(self).out_pos,
                ..*old(self)
            }),
            old(self).front_is_kept() ==> final(self).front_is_kept(),
    {
        let ghost before = self.output@;
        let window: usize = self.hop + self.overlap;
        proof {
            self.lemma_target();
            self.lemma_room(best as int);
        }
        let channels: usize = self.channels;
        let overlap: usize = self.overlap;
        let out_len: usize = self.output.len();
        let in_len: usize = self.input.len();
        proof {
            lemma_scale(self.out_pos as int, self.out_pos + self.window(), channels as int);
            lemma_scale(best as int, best + self.window(), channels as int);
        }
        let base: usize = self.out_pos * channels;
        let from: usize = best * channels;
        let count: usize = window * channels;
        let ghost all = laid_over(
            before,
            self.input@,
            channels as int,
            self.out_pos as int,
            best as int,
            overlap as int,
            window as int,
        );
        let mut k: usize = 0;
        while k < count
            invariant
                k <= count,
                1 <= channels <= 8,
                1 <= overlap <= 2000,
                count == window * channels,
                base == old(self).out_pos * channels,
                from == best * channels,
                out_len == before.len(),
                in_len == self.input@.len(),
                base + count <= out_len,
                from + count <= in_len,
                self.input@ == old(self).input@,
                self.output@.len() == before.len(),
                all == laid_over(
                    before,
                    self.input@,
                    channels as int,
                    old(self).out_pos as int,
                    best as int,
                    overlap as int,
                    window as int,
                ),
                forall|i: int| 0 <= i < base + k ==> (#[trigger] self.output@[i]) == all[i],
                forall|i: int| base + k <= i < before.len() ==> (#[trigger] self.output@[i])
                    == before[i],
                *self == (Compressor { output: self.output, ..*old(self) }),
            decreases count - k,
        {
            let offset: usize = k / channels;
            let sample: i16 = self.input[from + k];
            let there: i16 = self.output[base + k];
            let v: i16 = if offset < overlap {
                blend(there, sample, offset, overlap)
            } else {
                sample
            };
            proof {
                assert(all[base + k] == v);
            }
            self.output.set(base + k, v);
            k = k + 1;
        }
        proof {
            assert(self.output@ =~= all);
            if old(self).front_is_kept() {
                let h = first_of(self.frames as int, self.target as int, self.hop as int);
                lemma_scale(h, self.out_pos as int, channels as int);
                assert(self.front_is_kept());
            }
        }
        self.previous = best;
        self.out_pos = self.out_pos + self.hop;
    }

    /// The compressed voice.
    pub fn finish(self) -> (r: Vec<i16>)
        requires
            self.wf(),
            self.out_pos >= self.target,
        ensures
            r@ == self.output@.take(self.target * self.channels),
            r@.len() == target_of(self.frames as int, self.percent as int) * self.channels,
    {
        proof {
            self.lemma_target();
            lemma_scale(self.target as int, self.target + self.window(), self.channels as int);
            lemma_scale(0, self.target as int, self.channels as int);
        }
        let n: usize = self.target * self.channels;
        let mut output = self.output;
        output.truncate(n);
        output
    }
}

/// What becomes of a file.
#[derive(Debug)]
pub enum WavStep {
    /// The file stays as it is.
    Unchanged(Vec<u8>),
    /// The voice is to be compressed.
    Compress(Compressor),
}

/// The percentage within its limits.
pub open spec fn limited(percent: int) -> int {
    if percent < 100 {
        100
    } else if percent > 400 {
        400
    } else {
        percent
    }
}

pub open spec fn is_supported(f: wav::WavFormat) -> bool {
    f.kind == 1 && f.bits == 16 && 1 <= f.channels <= 8 && 8000 <= f.rate <= 192000
}

/// The samples from byte `from` to byte `to`.
pub open spec fn samples_between(b: Seq<u8>, from: int, to: int) -> Seq<i16> {
    Seq::new(((to - from) / 2) as nat, |i: int| wav::sample_at(b, from + 2 * i) as i16)
}

/// Why a file cannot be compressed, where it cannot.
pub open spec fn refusal(b: Seq<u8>) -> Option<JitanError> {
    match wav::parts(b) {
        Err(e) => Some(JitanError::Wav(e)),
        Ok((None, _)) => Some(JitanError::Wav(WavError::MissingFormat)),
        Ok((Some(f), samples)) => if !is_supported(f) {
            Some(JitanError::UnsupportedFormat)
        } else {
            match samples {
                None => Some(JitanError::Wav(WavError::MissingData)),
                Some((from, to)) => if (to - from) % (f.channels * 2) != 0 {
                    Some(JitanError::UnalignedSamples)
                } else {
                    None
                },
            }
        },
    }
}

/// The format of a file that is not refused.
pub open spec fn format(b: Seq<u8>) -> wav::WavFormat {
    wav::parts(b)->Ok_0.0->0
}

/// The samples of a file that is not refused.
pub open spec fn voice(b: Seq<u8>) -> Seq<i16> {
    let range = wav::parts(b)->Ok_0.1->0;
    samples_between(b, range.0, range.1)
}

/// Whether a voice is shorter than a tenth of a second.
pub open spec fn is_short(b: Seq<u8>) -> bool {
    let frames = voice(b).len() as int / format(b).channels as int;
    frames < (format(b).rate as int / 10)
}

/// Reads a voice and begins to compress it. At 100 percent, and where it is
/// shorter than a tenth of a second, it stays as it is.
pub fn compress_wav(wav: Vec<u8>, percent: u16) -> (r: Result<WavStep, JitanError>)
    requires
        wav@.len() * 50 + 40000 <= usize::MAX,
    ensures
        match r {
            Ok(WavStep::Unchanged(same)) => same@ == wav@ && (limited(percent as int) == 100 || (
            refusal(wav@) is None && is_short(wav@))),
            Ok(WavStep::Compress(c)) => {
                &&& limited(percent as int) != 100
                &&& refusal(wav@) is None
                &&& !is_short(wav@)
                &&& c.begun(
                    voice(wav@),
                    format(wav@).channels as int,
                    format(wav@).rate as int,
                    limited(percent as int),
                )
                &&& c.front_is_kept()
            },
            Err(e) => limited(percent as int) != 100 && refusal(wav@) == Some(e),
        },
{
    let p: u16 = if percent < 100 {
        100
    } else if percent > 400 {
        400
    } else {
        percent
    };
    if p == 100 {
        return Ok(WavStep::Unchanged(wav));
    }
    let (header, found) = match find_parts(wav.as_slice()) {
        Ok(pair) => pair,
        Err(e) => {
            return Err(JitanError::Wav(e));
        },
    };
    let f = match header {
        Some(f) => f,
        None => {
            return Err(JitanError::Wav(WavError::MissingFormat));
        },
    };
    if f.kind != 1 || f.bits != 16 || f.channels < 1 || f.channels > 8 || f.rate < 8000 || f.rate
        > 192000 {
        return Err(JitanError::UnsupportedFormat);
    }
    let (from, to) = match found {
        Some(range) => range,
        None => {
            return Err(JitanError::Wav(WavError::MissingData));
        },
    };
    let channels: usize = f.channels as usize;
    let size: usize = to - from;
    if size % (channels * 2) != 0 {
        return Err(JitanError::UnalignedSamples);
    }
    let count: usize = size / 2;
    let ghost all = samples_between(wav@, from as int, to as int);
    let mut samples: Vec<i16> = Vec::new();
    let mut i: usize = 0;
    while i < count
        invariant
            i <= count,
            count == size / 2,
            size == to - from,
            from <= to <= wav@.len() <= usize::MAX,
            all == samples_between(wav@, from as int, to as int),
            samples@ == all.take(i as int),
        decreases count - i,
    {
        samples.push(read_sample(wav.as_slice(), from + 2 * i));
        i = i + 1;
        proof {
            assert(samples@ =~= all.take(i as int));
        }
    }
    proof {
        assert(samples@ =~= all);
    }
    let rate: usize = f.rate as usize;
    if count / channels < rate / 10 {
        return Ok(WavStep::Unchanged(wav));
    }
    proof {
        let n = count as int;
        let c = channels as int;
        let s = size as int;
        assert(n % c == 0) by (nonlinear_arith)
            requires
                s % (c * 2) == 0,
                c >= 1,
                n == s / 2,
                s >= 0,
        {
            let q = s / (c * 2);
            assert(s == (c * 2) * q);
            assert(s == 2 * (c * q));
            assert(n == c * q);
            assert((c * q) % c == 0);
        }
    }
    Ok(WavStep::Compress(Compressor::begin_pcm(samples, channels, rate, p as usize)))
}

/// The file of a compressed voice.
pub fn finish_wav(c: Compressor) -> (out: Vec<u8>)
    requires
        c.wf(),
        c.out_pos >= c.target,
    ensures
        out@ == wav::file(
            c.channels as int,
            c.rate as int,
            c.output@.take(c.target * c.channels),
        ),
{
    proof {
        c.lemma_target();
        lemma_scale(c.target as int, c.target + c.window(), c.channels as int);
    }
    let channels: u16 = c.channels as u16;
    let sample_rate: u32 = c.rate as u32;
    let samples = c.finish();
    pcm16_to_wav_bytes(&Pcm16 { channels, sample_rate, samples })
}

proof fn lemma_floor(n: int, d: int)
    requires
        d > 0,
    ensures
        d * (n / d) <= n < d * (n / d) + d,
{
    vstd::arithmetic::div_mod::lemma_fundamental_div_mod(n, d);
}

/// A piece that is laid at frame `out_pos` of the output comes from where the
/// voice is at that time: `percent / 100` times as far, give or take a quarter of
/// a hop. Only two things move it further: it lies behind the last choice, and
/// it must fit before the voice's end.
pub proof fn pieces_come_from_where_the_voice_is(c: Compressor, source: int)
    requires
        c.wf(),
        c.out_pos < c.target,
        c.begin() <= source <= c.end(),
    ensures
        0 <= source,
        source + c.hop + c.overlap <= c.frames,
        ({
            let search = c.hop as int / 4;
            let last = c.frames - c.hop - c.overlap;
            let due = c.out_pos * c.percent;
            &&& 100 * (source - search) <= due || source <= c.previous + 1
            &&& due < 100 * (source + search + 1) || source >= last - search
            &&& 100 * c.expected() <= due
            &&& due < 100 * (c.expected() + 1) || c.expected() == last
            &&& c.expected() <= last
            &&& c.previous < c.expected() ==> c.begin() <= c.expected() <= c.end()
        }),
{
    c.lemma_target();
    lemma_floor(c.out_pos * c.percent, 100);
    assert(0 <= c.out_pos * c.percent) by (nonlinear_arith);
}

/// The pieces go forward through the voice: a piece begins behind the one before
/// it, unless that was the last that the voice has.
pub proof fn pieces_go_forward(c: Compressor, source: int)
    requires
        c.wf(),
        c.out_pos < c.target,
        c.begin() <= source <= c.end(),
    ensures
        source > c.previous || source == c.frames - c.hop - c.overlap,
        c.begin() <= c.end(),
{
    c.lemma_target();
    assert(0 <= c.out_pos * c.percent) by (nonlinear_arith);
}

/// Nothing is left off at the end: the last piece of the output comes from the
/// last part of the voice.
pub proof fn the_last_piece_comes_from_the_end(c: Compressor, source: int)
    requires
        c.wf(),
        c.out_pos < c.target,
        c.out_pos + c.hop >= c.target,
        c.begin() <= source <= c.end(),
    ensures
        100 * (source + c.hop as int / 4 + 1) + c.percent * (c.hop + 1) > 100 * c.frames || source
            >= c.frames - c.hop - c.overlap - c.hop as int / 4,
{
    pieces_come_from_where_the_voice_is(c, source);
    let p = c.percent as int;
    let t = c.target as int;
    let f = c.frames as int;
    let o = c.out_pos as int;
    let h = c.hop as int;
    lemma_floor(f * 100, p);
    assert(p * (t + 1) == p * t + p) by (nonlinear_arith);
    assert(o * p + p * (h + 1) >= p * t + p) by (nonlinear_arith)
        requires
            o + h >= t,
            p >= 100,
    ;
}

/// A compressed voice is as many times shorter as it is faster, rounded down to
/// a frame. A piece is moved on by an 80th of a second, and a 110th of a second
/// lies over the piece before.
pub proof fn compressed_voices_are_shorter(c: Compressor)
    requires
        c.wf(),
    ensures
        c.target * c.percent <= c.frames * 100 < (c.target + 1) * c.percent,
        80 * c.hop <= c.rate < 80 * (c.hop + 1),
        110 * c.overlap <= c.rate < 110 * (c.overlap + 1),
        c.target <= c.frames,
{
    c.lemma_target();
    lemma_floor(c.frames * 100, c.percent as int);
    let (t, p) = (c.target as int, c.percent as int);
    assert((t + 1) * p == p * t + p) by (nonlinear_arith);
    assert(t * p == p * t) by (nonlinear_arith);
}

/// Where two pieces overlap, a sample is the mean of both: all of what was there
/// at the front, and more of the new piece the further it goes, rounded towards
/// zero. It lies between both.
pub proof fn overlapping_pieces_are_faded(there: int, piece: int, offset: int, overlap: int)
    requires
        0 <= offset < overlap,
    ensures
        ({
            let r = blended(there, piece, offset, overlap);
            let sum = there * (overlap - offset) + piece * offset;
            &&& offset == 0 ==> r == there
            &&& there == piece ==> r == there
            &&& sum >= 0 ==> overlap * r <= sum < overlap * (r + 1)
            &&& sum <= 0 ==> overlap * (r - 1) < sum <= overlap * r
            &&& blended(-there, -piece, offset, overlap) == -r
        }),
{
    let sum = there * (overlap - offset) + piece * offset;
    let other = (-there) * (overlap - offset) + (-piece) * offset;
    assert(other == -sum) by (nonlinear_arith)
        requires
            sum == there * (overlap - offset) + piece * offset,
            other == (-there) * (overlap - offset) + (-piece) * offset,
    ;
    let r = blended(there, piece, offset, overlap);
    lemma_floor(sum, overlap);
    lemma_floor(-sum, overlap);
    assert(overlap * (r + 1) == overlap * r + overlap) by (nonlinear_arith);
    assert(overlap * (r - 1) == overlap * r - overlap) by (nonlinear_arith);
    if sum < 0 {
        let q = (-sum) / overlap;
        assert(overlap * (-q) == -(overlap * q)) by (nonlinear_arith);
    }
    assert(0int / overlap == 0) by (nonlinear_arith)
        requires
            overlap > 0,
    ;
    if offset == 0 {
        assert(sum == there * overlap) by (nonlinear_arith)
            requires
                offset == 0,
                sum == there * (overlap - offset) + piece * offset,
        ;
        lemma_whole(there, overlap);
    }
    if there == piece {
        assert(sum == there * overlap) by (nonlinear_arith)
            requires
                there == piece,
                sum == there * (overlap - offset) + piece * offset,
        ;
        lemma_whole(there, overlap);
    }
}

proof fn lemma_whole(v: int, n: int)
    requires
        n > 0,
    ensures
        wipe_linear::truncated(v * n, n) == v,
{
    vstd::arithmetic::div_mod::lemma_div_multiples_vanish(v, n);
    vstd::arithmetic::div_mod::lemma_div_multiples_vanish(-v, n);
    assert((-v) * n == -(v * n)) by (nonlinear_arith);
    assert(n * v == v * n && n * (-v) == -(v * n)) by (nonlinear_arith);
    assert(v >= 0 ==> v * n >= 0) by (nonlinear_arith)
        requires
            n > 0,
    ;
    assert(v < 0 ==> v * n < 0) by (nonlinear_arith)
        requires
            n > 0,
    ;
}

/// A piece that is laid over the output changes nothing before it and nothing
/// behind it; what lies behind the overlap is the voice's own, sample by sample
/// and channel by channel; and the first frame of the overlap stays as it was.
pub proof fn laid_pieces_are_the_voices_own(
    output: Seq<i16>,
    input: Seq<i16>,
    channels: int,
    out_pos: int,
    best: int,
    overlap: int,
    window: int,
    frame: int,
    channel: int,
)
    requires
        1 <= channels,
        0 <= channel < channels,
        0 <= out_pos,
        0 <= best,
        0 < overlap < window,
        0 <= frame,
        (out_pos + window) * channels <= output.len(),
        (best + window) * channels <= input.len(),
        frame * channels + channel < output.len(),
    ensures
        ({
            let r = laid_over(output, input, channels, out_pos, best, overlap, window);
            let at = frame * channels + channel;
            let k = frame - out_pos;
            &&& r.len() == output.len()
            &&& k < 0 || k >= window || k == 0 ==> r[at] == output[at]
            &&& overlap <= k < window ==> r[at] == input[(best + k) * channels + channel]
        }),
{
    let r = laid_over(output, input, channels, out_pos, best, overlap, window);
    let at = frame * channels + channel;
    let k = frame - out_pos;
    let n = at - out_pos * channels;
    assert(n == k * channels + channel) by (nonlinear_arith)
        requires
            n == frame * channels + channel - out_pos * channels,
            k == frame - out_pos,
    ;
    assert(0 <= at) by (nonlinear_arith)
        requires
            at == frame * channels + channel,
            0 <= frame,
            0 <= channel,
            1 <= channels,
    ;
    if k < 0 {
        lemma_scale(k, -1, channels);
        assert(n < 0);
    } else {
        assert(n >= 0) by (nonlinear_arith)
            requires
                n == k * channels + channel,
                k >= 0,
                channel >= 0,
                channels >= 1,
        ;
        assert(n / channels == k) by {
            vstd::arithmetic::div_mod::lemma_fundamental_div_mod_converse(n, channels, k, channel);
        }
        if k >= window {
            assert(n >= window * channels) by (nonlinear_arith)
                requires
                    n == k * channels + channel,
                    k >= window,
                    channel >= 0,
                    channels >= 1,
            ;
        } else {
            lemma_scale(k + 1, window, channels);
            assert((k + 1) * channels == k * channels + channels) by (nonlinear_arith);
            assert(n < window * channels);
            assert(best * channels + n == (best + k) * channels + channel) by (nonlinear_arith)
                requires
                    n == k * channels + channel,
            ;
            if k == 0 {
                overlapping_pieces_are_faded(
                    output[at] as int,
                    input[best * channels + n] as int,
                    0,
                    overlap,
                );
            }
        }
    }
}

/// A sum of products is the same either way round, and that of a piece with
/// itself is never negative; where both pieces are the same, all three sums of a
/// match are.
pub proof fn matches_are_symmetric(
    a: Seq<i16>,
    b: Seq<i16>,
    frame_a: int,
    frame_b: int,
    channels: int,
    offset: int,
    overlap: int,
)
    ensures
        products(a, b, frame_a, frame_b, channels, offset, overlap) == products(
            b,
            a,
            frame_b,
            frame_a,
            channels,
            offset,
            overlap,
        ),
        products(a, a, frame_a, frame_a, channels, offset, overlap) >= 0,
    decreases overlap + 4 - offset,
{
    if offset < overlap {
        let x = (frame_a + offset) * channels;
        let y = (frame_b + offset) * channels;
        lemma_dot(a, b, x, y, channels);
        matches_are_symmetric(a, b, frame_a, frame_b, channels, offset + 4, overlap);
    }
}

proof fn lemma_dot(a: Seq<i16>, b: Seq<i16>, x: int, y: int, n: int)
    ensures
        dot(a, b, x, y, n) == dot(b, a, y, x, n),
        dot(a, a, x, x, n) >= 0,
    decreases n,
{
    if n > 0 {
        lemma_dot(a, b, x, y, n - 1);
        let u = a[x + n - 1] as int;
        let v = b[y + n - 1] as int;
        assert(u * v == v * u) by (nonlinear_arith);
        assert(u * u >= 0) by (nonlinear_arith);
    }
}

/// Silence matches nothing, and a voice that is doubled matches twice as well:
/// the sum of a match grows with each of both pieces alike.
pub proof fn matches_grow_with_the_voice(
    a: Seq<i16>,
    b: Seq<i16>,
    louder: Seq<i16>,
    frame_a: int,
    frame_b: int,
    channels: int,
    offset: int,
    overlap: int,
    times: int,
)
    requires
        louder.len() == b.len(),
        0 <= frame_b,
        0 <= offset,
        0 <= channels,
        (frame_b + overlap) * channels <= b.len(),
        forall|i: int| 0 <= i < b.len() ==> #[trigger] louder[i] == times * b[i],
    ensures
        products(a, louder, frame_a, frame_b, channels, offset, overlap) == times * products(
            a,
            b,
            frame_a,
            frame_b,
            channels,
            offset,
            overlap,
        ),
    decreases overlap + 4 - offset,
{
    if offset < overlap {
        let x = (frame_a + offset) * channels;
        let y = (frame_b + offset) * channels;
        assert(0 <= y && y + channels <= (frame_b + overlap) * channels) by (nonlinear_arith)
            requires
                y == (frame_b + offset) * channels,
                0 <= frame_b + offset,
                offset + 1 <= overlap,
                0 <= channels,
        ;
        lemma_dot_times(a, b, louder, x, y, channels, times);
        matches_grow_with_the_voice(
            a,
            b,
            louder,
            frame_a,
            frame_b,
            channels,
            offset + 4,
            overlap,
            times,
        );
        let p = dot(a, b, x, y, channels);
        let q = products(a, b, frame_a, frame_b, channels, offset + 4, overlap);
        assert(times * (p + q) == times * p + times * q) by (nonlinear_arith);
    }
}

proof fn lemma_dot_times(
    a: Seq<i16>,
    b: Seq<i16>,
    louder: Seq<i16>,
    x: int,
    y: int,
    n: int,
    times: int,
)
    requires
        louder.len() == b.len(),
        0 <= y,
        y + n <= b.len(),
        forall|i: int| 0 <= i < b.len() ==> #[trigger] louder[i] == times * b[i],
    ensures
        dot(a, louder, x, y, n) == times * dot(a, b, x, y, n),
    decreases n,
{
    if n > 0 {
        lemma_dot_times(a, b, louder, x, y, n - 1, times);
        let u = a[x + n - 1] as int;
        let v = b[y + n - 1] as int;
        let d = dot(a, b, x, y, n - 1);
        assert(louder[y + n - 1] == times * v);
        assert(u * (times * v) == times * (u * v)) by (nonlinear_arith);
        assert(times * (d + u * v) == times * d + times * (u * v)) by (nonlinear_arith);
    }
}

/// A new output is the voice's own at its front, and silent behind.
pub proof fn the_front_is_the_voices_own(
    input: Seq<i16>,
    channels: int,
    frames: int,
    target: int,
    window: int,
    i: int,
)
    requires
        0 <= channels,
        0 <= i < (target + window) * channels,
    ensures
        ({
            let r = first_output(input, channels, frames, target, window);
            &&& r.len() == (target + window) * channels
            &&& i < window * channels && i < frames * channels && i < target * channels ==> r[i]
                == input[i]
            &&& i >= window * channels || i >= frames * channels || i >= target * channels ==> r[i]
                == 0
        }),
{
    let first = first_of(frames, target, window);
    lemma_scale(first, window, channels);
    lemma_scale(first, frames, channels);
    lemma_scale(first, target, channels);
}

/// The speed is kept between the voice's own and four times as fast.
pub proof fn speeds_are_limited(percent: int)
    ensures
        100 <= limited(percent) <= 400,
        100 <= percent <= 400 ==> limited(percent) == percent,
        percent <= 100 ==> limited(percent) == 100,
        percent >= 400 ==> limited(percent) == 400,
{
}

} // verus!
