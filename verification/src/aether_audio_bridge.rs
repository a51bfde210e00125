//! The mixed sound on its way to the host.
//!
//! A renderer puts slices of interleaved samples into a ring, and the host
//! takes them out. When the ring is full, the oldest samples make room.

use vstd::prelude::*;

verus! {

/// How many frames are rendered in a second.
pub const HOST_SAMPLE_RATE: u32 = 48000;

/// How many samples the ring has room for: two seconds of two channels.
pub const RING_CAPACITY_SAMPLES: usize = 192000;

/// How many frames are rendered at a time.
pub const CHUNK_FRAMES: usize = 240;

/// How many nanoseconds the frames of a slice take.
pub const SLICE_NANOS: u64 = 5_000_000;

/// The answers to the host.
pub const AUDIO_OK: i32 = 0;

pub const AUDIO_INVALID_ARGUMENT: i32 = -1;

pub const AUDIO_INVALID_STATE: i32 = -2;

/// What the backend is set up with.
#[derive(Debug, Clone, Copy, PartialEq, Eq, Structural)]
pub struct PcmBackendSettings {
    pub sample_rate: u32,
}

impl Default for PcmBackendSettings {
    fn default() -> (s: PcmBackendSettings)
        ensures
            s.sample_rate == HOST_SAMPLE_RATE,
    {
        PcmBackendSettings { sample_rate: HOST_SAMPLE_RATE }
    }
}

/// The render thread could not be started.
#[derive(Debug, Clone, Copy, PartialEq, Eq, Structural)]
pub struct PcmBackendError;

impl PcmBackendError {
    pub fn text(&self) -> (s: &'static str)
        ensures
            s@ == "kira pcm backend unavailable"@,
    {
        "kira pcm backend unavailable"
    }
}

/// A backend that renders into the ring.
#[derive(Debug, Clone, Copy, PartialEq, Eq, Structural)]
pub struct PcmBackend {
    pub sample_rate: u32,
    /// Whether a render thread runs that is to be stopped in the end.
    pub started: bool,
}

impl PcmBackend {
    /// Sets a backend up. A rate of zero stands for the host's.
    pub fn setup(settings: PcmBackendSettings) -> (r: (PcmBackend, u32))
        ensures
            r.1 == (if settings.sample_rate > 0 {
                settings.sample_rate
            } else {
                HOST_SAMPLE_RATE
            }),
            r.0 == (PcmBackend { sample_rate: r.1, started: false }),
    {
        let rate: u32 = if settings.sample_rate > 0 {
            settings.sample_rate
        } else {
            HOST_SAMPLE_RATE
        };
        (PcmBackend { sample_rate: rate, started: false }, rate)
    }

    /// Notes whether the render thread was started.
    pub fn start(&mut self, spawned: bool) -> (r: Result<(), PcmBackendError>)
        ensures
            spawned ==> r is Ok && *final(self) == (PcmBackend { started: true, ..*old(self) }),
            !spawned ==> r == Err::<(), PcmBackendError>(PcmBackendError) && *final(self) == *old(
                self,
            ),
    {
        if spawned {
            self.started = true;
            Ok(())
        } else {
            Err(PcmBackendError)
        }
    }
}

/// A ring of samples.
#[derive(Debug)]
pub struct SampleRing<T> {
    pub buf: Vec<T>,
    pub read_pos: usize,
    pub write_pos: usize,
    pub count: usize,
}

/// The place `k` steps behind `at` in a ring of `cap` places.
pub open spec fn wrapped(at: int, k: int, cap: int) -> int {
    if at + k >= cap {
        at + k - cap
    } else {
        at + k
    }
}

/// The last `cap` samples.
pub open spec fn newest<T>(s: Seq<T>, cap: int) -> Seq<T> {
    if s.len() > cap {
        s.skip(s.len() - cap)
    } else {
        s
    }
}

fn step(at: usize, cap: usize) -> (r: usize)
    requires
        at < cap,
    ensures
        r == wrapped(at as int, 1, cap as int),
        r < cap,
{
    if at + 1 == cap {
        0
    } else {
        at + 1
    }
}

impl<T: Copy> SampleRing<T> {
    pub open spec fn wf(&self) -> bool {
        &&& self.buf@.len() > 0
        &&& self.read_pos < self.buf@.len()
        &&& self.count <= self.buf@.len()
        &&& self.write_pos == wrapped(
            self.read_pos as int,
            self.count as int,
            self.buf@.len() as int,
        )
    }

    /// The samples in the ring, the oldest first.
    pub open spec fn view(&self) -> Seq<T> {
        Seq::new(
            self.count as nat,
            |k: int| self.buf@[wrapped(self.read_pos as int, k, self.buf@.len() as int)],
        )
    }

    /// An empty ring.
    pub fn new(silence: T, capacity: usize) -> (r: SampleRing<T>)
        requires
            capacity > 0,
        ensures
            r.wf(),
            r.buf@.len() == capacity,
            r@ == Seq::<T>::empty(),
    {
        let mut buf: Vec<T> = Vec::new();
        let mut i: usize = 0;
        while i < capacity
            invariant
                i <= capacity,
                buf@.len() == i,
            decreases capacity - i,
        {
            buf.push(silence);
            i = i + 1;
        }
        let r = SampleRing { buf, read_pos: 0, write_pos: 0, count: 0 };
        proof {
            assert(r@ =~= Seq::<T>::empty());
        }
        r
    }

    fn push_one(&mut self, sample: T) -> (dropped: bool)
        requires
            old(self).wf(),
        ensures
            final(self).wf(),
            final(self).buf@.len() == old(self).buf@.len(),
            final(self)@ == newest(old(self)@.push(sample), old(self).buf@.len() as int),
            dropped == (old(self).count == old(self).buf@.len()),
            final(self).count == (if dropped {
                old(self).count as int
            } else {
                old(self).count + 1
            }),
    {
        let cap: usize = self.buf.len();
        let ghost before = self@;
        let mut dropped: bool = false;
        if self.count == cap {
            self.read_pos = step(self.read_pos, cap);
            self.count = self.count - 1;
            dropped = true;
        }
        let at: usize = self.write_pos;
        self.buf.set(at, sample);
        self.write_pos = step(at, cap);
        self.count = self.count + 1;
        proof {
            let all = before.push(sample);
            if dropped {
                assert(self@ =~= all.skip(1));
            } else {
                assert(self@ =~= all);
            }
        }
        dropped
    }

    /// Puts samples in. Gives how many were lost: those that made room, and
    /// those that the ring could not hold in any case.
    pub fn push(&mut self, chunk: &[T]) -> (dropped: u64)
        requires
            old(self).wf(),
            2 * chunk@.len() <= u64::MAX,
        ensures
            final(self).wf(),
            final(self).buf@.len() == old(self).buf@.len(),
            final(self)@ == newest(old(self)@ + chunk@, old(self).buf@.len() as int),
            ({
                let cap = old(self).buf@.len() as int;
                let over = old(self)@.len() + chunk@.len() - cap;
                let excess = chunk@.len() - cap;
                dropped == (if over > 0 {
                    over
                } else {
                    0
                }) + (if excess > 0 {
                    excess
                } else {
                    0
                })
            }),
    {
        let cap: usize = self.buf.len();
        let n: usize = chunk.len();
        let mut dropped: u64 = if n > cap {
            (n - cap) as u64
        } else {
            0
        };
        let ghost excess = dropped as int;
        let ghost before = self@;
        let ghost start = self.count as int;
        let mut i: usize = 0;
        proof {
            assert(before + chunk@.take(0) =~= before);
            assert(newest(before, cap as int) == before);
        }
        while i < n
            invariant
                self.wf(),
                self.buf@.len() == cap,
                cap > 0,
                n == chunk@.len(),
                2 * n <= u64::MAX,
                excess <= n,
                i <= n,
                start == before.len(),
                start <= cap,
                self@ == newest(before + chunk@.take(i as int), cap as int),
                self.count == self@.len(),
                dropped == excess + (if start + i > cap {
                    start + i - cap
                } else {
                    0
                }),
            decreases n - i,
        {
            let ghost held = self@;
            let lost: bool = self.push_one(chunk[i]);
            if lost {
                dropped = dropped + 1;
            }
            i = i + 1;
            proof {
                let whole = before + chunk@.take(i as int);
                let prior = before + chunk@.take(i - 1);
                assert(whole =~= prior.push(chunk@[i - 1]));
                assert(newest(held.push(chunk@[i - 1]), cap as int) =~= newest(whole, cap as int));
                assert(self@ == newest(whole, cap as int));
            }
        }
        proof {
            assert(chunk@.take(i as int) =~= chunk@);
        }
        dropped
    }

    /// Takes out as many samples as there are, up to `room`.
    pub fn drain(&mut self, room: usize) -> (out: Vec<T>)
        requires
            old(self).wf(),
        ensures
            final(self).wf(),
            final(self).buf == old(self).buf,
            ({
                let n = if room < old(self)@.len() {
                    room as int
                } else {
                    old(self)@.len() as int
                };
                &&& out@ == old(self)@.take(n)
                &&& final(self)@ == old(self)@.skip(n)
            }),
    {
        let cap: usize = self.buf.len();
        let want: usize = if room < self.count {
            room
        } else {
            self.count
        };
        let ghost before = self@;
        let mut out: Vec<T> = Vec::new();
        let mut i: usize = 0;
        proof {
            assert(before.skip(0) =~= before);
        }
        while i < want
            invariant
                self.wf(),
                self.buf == old(self).buf,
                self.buf@.len() == cap,
                i <= want <= before.len(),
                before.len() == i + self.count,
                self@ == before.skip(i as int),
                out@ == before.take(i as int),
            decreases want - i,
        {
            let ghost held = self@;
            let ghost at = self.read_pos as int;
            proof {
                assert(held[0] == before[i as int]);
            }
            out.push(self.buf[self.read_pos]);
            self.read_pos = step(self.read_pos, cap);
            self.count = self.count - 1;
            i = i + 1;
            proof {
                assert(out@ =~= before.take(i as int));
                assert forall|k: int| 0 <= k < self.count implies self@[k] == held[k + 1] by {
                    assert(wrapped(self.read_pos as int, k, cap as int) == wrapped(
                        at,
                        k + 1,
                        cap as int,
                    ));
                }
                assert(self@ =~= held.skip(1));
                assert(held.skip(1) =~= before.skip(i as int));
            }
        }
        out
    }
}

/// What the host is answered when it asks for samples: how many it got, or why
/// it got none.
pub fn read_answer(has_place: bool, room: usize, has_sink: bool, written: usize) -> (r: i64)
    requires
        written <= i64::MAX,
    ensures
        r == (if !has_place || room == 0 {
            AUDIO_INVALID_ARGUMENT as int
        } else if !has_sink {
            AUDIO_INVALID_STATE as int
        } else {
            written as int
        }),
{
    if !has_place || room == 0 {
        AUDIO_INVALID_ARGUMENT as i64
    } else if !has_sink {
        AUDIO_INVALID_STATE as i64
    } else {
        written as i64
    }
}

/// When the next slice is due, and how long to wait for it. A renderer that
/// fell behind does not catch up.
pub fn next_slice(deadline: u64, now: u64) -> (r: (u64, u64))
    requires
        deadline <= u64::MAX - SLICE_NANOS,
    ensures
        deadline + SLICE_NANOS <= now ==> r == (now, 0u64),
        deadline + SLICE_NANOS > now ==> r.0 == deadline + SLICE_NANOS && r.1 == r.0 - now,
{
    let next: u64 = deadline + SLICE_NANOS;
    if next <= now {
        (now, 0)
    } else {
        (next, next - now)
    }
}

/// What was put into a ring with room for it comes out in its order.
pub proof fn samples_come_out_in_order<T>(held: Seq<T>, chunk: Seq<T>, cap: int)
    requires
        held.len() + chunk.len() <= cap,
    ensures
        newest(held + chunk, cap).take(held.len() as int) == held,
        newest(held + chunk, cap).skip(held.len() as int) == chunk,
{
    assert((held + chunk).take(held.len() as int) =~= held);
    assert((held + chunk).skip(held.len() as int) =~= chunk);
}

/// A ring that is full keeps the samples that came last: the oldest are dropped,
/// and no more than have to be.
pub proof fn full_rings_drop_the_oldest<T>(held: Seq<T>, chunk: Seq<T>, cap: int, i: int)
    requires
        0 <= cap,
        0 <= i < newest(held + chunk, cap).len(),
    ensures
        ({
            let kept = newest(held + chunk, cap);
            let all = held + chunk;
            &&& kept.len() == (if all.len() > cap {
                cap
            } else {
                all.len() as int
            })
            &&& kept[i] == all[all.len() - kept.len() + i]
            &&& chunk.len() >= cap ==> kept[i] == chunk[chunk.len() - cap + i]
        }),
{
}

} // verus!
