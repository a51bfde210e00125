//! Binary save streams: little-endian numbers, one-byte flags, strings as a
//! count of UTF-16 code units followed by the units, and element paths in a
//! record of fixed size.

use vstd::prelude::*;
use crate::bytes;
use crate::bytes::{push_u16, read_i32, read_u16, read_u32};
use crate::text;
use crate::text::{text_of_units_lossy, units_of};

verus! {

/// Why a stream cannot be read.
#[derive(Debug, Clone, Copy, PartialEq, Eq, Structural)]
pub enum StreamError {
    /// The stream ends too early.
    Truncated,
    /// A count is negative or larger than its record.
    InvalidCount,
}

/// A value and the bytes behind it, or why there is none.
pub type Parsed<T> = Result<(T, Seq<u8>), StreamError>;

#[verifier::opaque]
pub open spec fn i32_of(b: Seq<u8>) -> Parsed<int> {
    if b.len() < 4 {
        Err(StreamError::Truncated)
    } else {
        Ok((bytes::i32_at(b, 0), b.skip(4)))
    }
}

#[verifier::opaque]
pub open spec fn u32_of(b: Seq<u8>) -> Parsed<int> {
    if b.len() < 4 {
        Err(StreamError::Truncated)
    } else {
        Ok((bytes::u32_at(b, 0), b.skip(4)))
    }
}

#[verifier::opaque]
pub open spec fn bool_of(b: Seq<u8>) -> Parsed<bool> {
    if b.len() < 1 {
        Err(StreamError::Truncated)
    } else {
        Ok((b[0] != 0, b.skip(1)))
    }
}

#[verifier::opaque]
pub open spec fn raw_of(b: Seq<u8>, n: int) -> Parsed<Seq<u8>> {
    if b.len() < n {
        Err(StreamError::Truncated)
    } else {
        Ok((b.take(n), b.skip(n)))
    }
}

/// `n` code units from the front of `b`.
pub open spec fn units_at(b: Seq<u8>, n: int) -> Seq<u16> {
    Seq::new(n as nat, |i: int| bytes::u16_at(b, 2 * i) as u16)
}

#[verifier::opaque]
pub open spec fn string_of(b: Seq<u8>) -> Parsed<Seq<char>> {
    match i32_of(b) {
        Err(e) => Err(e),
        Ok((n, rest)) => if n < 0 {
            Err(StreamError::InvalidCount)
        } else if rest.len() < 2 * n {
            Err(StreamError::Truncated)
        } else {
            Ok((text::decoded_lossy(units_at(rest, n)), rest.skip(2 * n)))
        },
    }
}

/// An element path: a count, then room for `capacity` numbers.
#[verifier::opaque]
pub open spec fn element_of(b: Seq<u8>, capacity: int) -> Parsed<Seq<i32>> {
    if b.len() < 4 + 4 * capacity {
        Err(StreamError::Truncated)
    } else {
        let n = bytes::i32_at(b, 0);
        if n < 0 || n > capacity {
            Err(StreamError::InvalidCount)
        } else {
            Ok(
                (
                    Seq::new(n as nat, |i: int| bytes::i32_at(b, 4 + 4 * i) as i32),
                    b.skip(4 + 4 * capacity),
                ),
            )
        }
    }
}

/// How a flag is written.
pub open spec fn bool_bytes(v: bool) -> Seq<u8> {
    seq![if v { 1u8 } else { 0u8 }]
}

/// How code units are written.
pub open spec fn unit_bytes(units: Seq<u16>) -> Seq<u8> {
    Seq::new(2 * units.len(), |i: int| bytes::u16_le(units[i / 2] as int)[i % 2])
}

/// How a text is written.
pub open spec fn string_bytes(s: Seq<char>) -> Seq<u8> {
    bytes::u32_le(text::utf16(s).len() as int % 0x1_0000_0000) + unit_bytes(text::utf16(s))
}

/// It makes no difference how parts of a stream are bracketed.
pub proof fn assoc(a: Seq<u8>, b: Seq<u8>, c: Seq<u8>)
    ensures
        (a + b) + c == a + (b + c),
{
    assert((a + b) + c =~= a + (b + c));
}

/// Reading a number gives back the one that was written.
pub proof fn i32_round_trip(v: int, tail: Seq<u8>)
    requires
        i32::MIN <= v <= i32::MAX,
    ensures
        i32_of(bytes::i32_le(v) + tail) == Ok::<(int, Seq<u8>), StreamError>((v, tail)),
        (bytes::i32_le(v) + tail).len() == 4 + tail.len(),
{
    reveal(i32_of);
    let all = bytes::i32_le(v) + tail;
    bytes::lemma_i32_le(v);
    assert(all.skip(4) =~= tail);
    assert(bytes::i32_at(all, 0) == bytes::i32_at(bytes::i32_le(v), 0));
}

/// Reading an unsigned number gives back the one that was written.
pub proof fn u32_round_trip(v: int, tail: Seq<u8>)
    requires
        0 <= v <= u32::MAX,
    ensures
        u32_of(bytes::u32_le(v) + tail) == Ok::<(int, Seq<u8>), StreamError>((v, tail)),
{
    reveal(u32_of);
    let all = bytes::u32_le(v) + tail;
    bytes::lemma_u32_le(v);
    assert(all.skip(4) =~= tail);
    assert(bytes::u32_at(all, 0) == bytes::u32_at(bytes::u32_le(v), 0));
}

/// Reading a flag gives back the one that was written.
pub proof fn bool_round_trip(v: bool, tail: Seq<u8>)
    ensures
        bool_of(bool_bytes(v) + tail) == Ok::<(bool, Seq<u8>), StreamError>((v, tail)),
{
    reveal(bool_of);
    assert((bool_bytes(v) + tail).skip(1) =~= tail);
}

/// Reading raw bytes gives back those that were written.
pub proof fn raw_round_trip(b: Seq<u8>, tail: Seq<u8>)
    ensures
        raw_of(b + tail, b.len() as int) == Ok::<(Seq<u8>, Seq<u8>), StreamError>((b, tail)),
{
    reveal(raw_of);
    assert((b + tail).take(b.len() as int) =~= b);
    assert((b + tail).skip(b.len() as int) =~= tail);
}

/// Reading a text gives back the one that was written, unless it is too long
/// for its count.
pub proof fn string_round_trip(s: Seq<char>, tail: Seq<u8>)
    requires
        text::utf16(s).len() <= i32::MAX,
    ensures
        string_of(string_bytes(s) + tail) == Ok::<(Seq<char>, Seq<u8>), StreamError>((s, tail)),
{
    reveal(string_of);
    let units = text::utf16(s);
    let n = units.len() as int;
    let body = unit_bytes(units);
    assert(bytes::word(n) == n % 0x1_0000_0000);
    bytes::lemma_le_len(n);
    assert(string_bytes(s) + tail =~= bytes::i32_le(n) + (body + tail));
    i32_round_trip(n, body + tail);
    let rest = body + tail;
    assert forall|i: int| 0 <= i < n implies units_at(rest, n)[i] == #[trigger] units[i] by {
        bytes::lemma_u16_le(units[i] as int);
        assert(rest[2 * i] == body[2 * i]);
        assert(rest[2 * i + 1] == body[2 * i + 1]);
    }
    assert(units_at(rest, n) =~= units);
    assert(rest.skip(2 * n) =~= tail);
    text::utf16_round_trip(s);
}

/// A place in a stream that is being read.
#[derive(Debug, Clone, Copy)]
pub struct StreamReader<'a> {
    pub data: &'a [u8],
    pub pos: usize,
}

impl<'a> StreamReader<'a> {
    pub open spec fn wf(&self) -> bool {
        self.pos <= self.data@.len()
    }

    /// The bytes that have not been read.
    pub open spec fn rest(&self) -> Seq<u8> {
        self.data@.skip(self.pos as int)
    }

    pub fn new(data: &'a [u8]) -> (r: StreamReader<'a>)
        ensures
            r.wf(),
            r.rest() == data@,
    {
        let r = StreamReader { data, pos: 0 };
        proof {
            assert(r.rest() =~= data@);
        }
        r
    }

    pub fn remaining(&self) -> (n: usize)
        requires
            self.wf(),
        ensures
            n == self.rest().len(),
    {
        self.data.len() - self.pos
    }

    pub fn i32(&mut self) -> (r: Result<i32, StreamError>)
        requires
            old(self).wf(),
        ensures
            final(self).wf(),
            final(self).data == old(self).data,
            match (r, i32_of(old(self).rest())) {
                (Ok(v), Ok(p)) => v == p.0 && final(self).rest() == p.1,
                (Err(a), Err(b)) => a == b && *final(self) == *old(self),
                _ => false,
            },
    {
        proof {
            reveal(i32_of);
        }
        if self.data.len() - self.pos < 4 {
            return Err(StreamError::Truncated);
        }
        let v: i32 = read_i32(self.data, self.pos);
        proof {
            assert(bytes::i32_at(self.rest(), 0) == v);
        }
        self.pos = self.pos + 4;
        proof {
            assert(self.rest() =~= old(self).rest().skip(4));
        }
        Ok(v)
    }

    pub fn u32(&mut self) -> (r: Result<u32, StreamError>)
        requires
            old(self).wf(),
        ensures
            final(self).wf(),
            final(self).data == old(self).data,
            match (r, u32_of(old(self).rest())) {
                (Ok(v), Ok(p)) => v == p.0 && final(self).rest() == p.1,
                (Err(a), Err(b)) => a == b && *final(self) == *old(self),
                _ => false,
            },
    {
        proof {
            reveal(u32_of);
        }
        if self.data.len() - self.pos < 4 {
            return Err(StreamError::Truncated);
        }
        let v: u32 = read_u32(self.data, self.pos);
        proof {
            assert(bytes::u32_at(self.rest(), 0) == v);
        }
        self.pos = self.pos + 4;
        proof {
            assert(self.rest() =~= old(self).rest().skip(4));
        }
        Ok(v)
    }

    pub fn bool(&mut self) -> (r: Result<bool, StreamError>)
        requires
            old(self).wf(),
        ensures
            final(self).wf(),
            final(self).data == old(self).data,
            match (r, bool_of(old(self).rest())) {
                (Ok(v), Ok(p)) => v == p.0 && final(self).rest() == p.1,
                (Err(a), Err(b)) => a == b && *final(self) == *old(self),
                _ => false,
            },
    {
        proof {
            reveal(bool_of);
        }
        if self.data.len() - self.pos < 1 {
            return Err(StreamError::Truncated);
        }
        let v: bool = self.data[self.pos] != 0;
        self.pos = self.pos + 1;
        proof {
            assert(self.rest() =~= old(self).rest().skip(1));
        }
        Ok(v)
    }

    pub fn take_raw(&mut self, n: usize) -> (r: Result<Vec<u8>, StreamError>)
        requires
            old(self).wf(),
        ensures
            final(self).wf(),
            final(self).data == old(self).data,
            match (r, raw_of(old(self).rest(), n as int)) {
                (Ok(v), Ok(p)) => v@ == p.0 && final(self).rest() == p.1,
                (Err(a), Err(b)) => a == b && *final(self) == *old(self),
                _ => false,
            },
    {
        proof {
            reveal(raw_of);
        }
        if self.data.len() - self.pos < n {
            return Err(StreamError::Truncated);
        }
        let part = vstd::slice::slice_subrange(self.data, self.pos, self.pos + n);
        let v = vstd::slice::slice_to_vec(part);
        self.pos = self.pos + n;
        proof {
            assert(v@ =~= old(self).rest().take(n as int));
            assert(self.rest() =~= old(self).rest().skip(n as int));
        }
        Ok(v)
    }

    /// Passes over `n` bytes.
    pub fn skip(&mut self, n: usize) -> (r: Result<(), StreamError>)
        requires
            old(self).wf(),
        ensures
            final(self).wf(),
            final(self).data == old(self).data,
            match (r, raw_of(old(self).rest(), n as int)) {
                (Ok(_), Ok(p)) => final(self).rest() == p.1,
                (Err(a), Err(b)) => a == b && *final(self) == *old(self),
                _ => false,
            },
    {
        proof {
            reveal(raw_of);
        }
        if self.data.len() - self.pos < n {
            return Err(StreamError::Truncated);
        }
        self.pos = self.pos + n;
        proof {
            assert(self.rest() =~= old(self).rest().skip(n as int));
        }
        Ok(())
    }

    pub fn string(&mut self) -> (r: Result<String, StreamError>)
        requires
            old(self).wf(),
        ensures
            final(self).wf(),
            final(self).data == old(self).data,
            match (r, string_of(old(self).rest())) {
                (Ok(v), Ok(p)) => v@ == p.0 && final(self).rest() == p.1,
                (Err(a), Err(b)) => a == b,
                _ => false,
            },
    {
        proof {
            reveal(string_of);
        }
        let n: i32 = match self.i32() {
            Ok(n) => n,
            Err(e) => {
                return Err(e);
            },
        };
        if n < 0 {
            return Err(StreamError::InvalidCount);
        }
        let count: usize = n as usize;
        let left: usize = self.data.len() - self.pos;
        if left / 2 < count {
            return Err(StreamError::Truncated);
        }
        let ghost rest = self.rest();
        let ghost all = units_at(rest, count as int);
        let mut units: Vec<u16> = Vec::new();
        let mut i: usize = 0;
        while i < count
            invariant
                self.wf(),
                self.rest() == rest,
                i <= count,
                2 * count <= self.data@.len() - self.pos,
                self.data@.len() <= usize::MAX,
                all == units_at(rest, count as int),
                units@ == all.take(i as int),
            decreases count - i,
        {
            let u: u16 = read_u16(self.data, self.pos + 2 * i);
            proof {
                assert(bytes::u16_at(rest, 2 * i) == u);
            }
            units.push(u);
            i = i + 1;
            proof {
                assert(units@ =~= all.take(i as int));
            }
        }
        self.pos = self.pos + 2 * count;
        proof {
            assert(units@ =~= all);
            assert(self.rest() =~= rest.skip(2 * count));
        }
        Ok(text_of_units_lossy(&units))
    }

    pub fn element(&mut self, capacity: usize) -> (r: Result<Vec<i32>, StreamError>)
        requires
            old(self).wf(),
            capacity <= 0xffff,
        ensures
            final(self).wf(),
            final(self).data == old(self).data,
            match (r, element_of(old(self).rest(), capacity as int)) {
                (Ok(v), Ok(p)) => v@ == p.0 && final(self).rest() == p.1,
                (Err(a), Err(b)) => a == b,
                _ => false,
            },
    {
        proof {
            reveal(element_of);
        }
        let size: usize = 4 + 4 * capacity;
        if self.data.len() - self.pos < size {
            return Err(StreamError::Truncated);
        }
        let n: i32 = read_i32(self.data, self.pos);
        let ghost rest = self.rest();
        proof {
            assert(bytes::i32_at(rest, 0) == n);
        }
        if n < 0 || n as usize > capacity {
            return Err(StreamError::InvalidCount);
        }
        let count: usize = n as usize;
        let ghost all = Seq::new(count as nat, |i: int| bytes::i32_at(rest, 4 + 4 * i) as i32);
        let mut v: Vec<i32> = Vec::new();
        let mut i: usize = 0;
        while i < count
            invariant
                self.wf(),
                self.rest() == rest,
                i <= count <= capacity <= 0xffff,
                4 + 4 * capacity <= self.data@.len() - self.pos,
                self.data@.len() <= usize::MAX,
                all == Seq::new(count as nat, |i: int| bytes::i32_at(rest, 4 + 4 * i) as i32),
                v@ == all.take(i as int),
            decreases count - i,
        {
            let e: i32 = read_i32(self.data, self.pos + 4 + 4 * i);
            proof {
                assert(bytes::i32_at(rest, 4 + 4 * i) == e);
            }
            v.push(e);
            i = i + 1;
            proof {
                assert(v@ =~= all.take(i as int));
            }
        }
        self.pos = self.pos + size;
        proof {
            assert(v@ =~= all);
            assert(self.rest() =~= rest.skip(size as int));
        }
        Ok(v)
    }
}

pub fn push_bool(out: &mut Vec<u8>, v: bool)
    ensures
        final(out)@ == old(out)@ + bool_bytes(v),
{
    out.push(if v { 1 } else { 0 });
    proof {
        assert(out@ =~= old(out)@ + bool_bytes(v));
    }
}

pub fn push_raw(out: &mut Vec<u8>, b: &[u8])
    ensures
        final(out)@ == old(out)@ + b@,
{
    let mut part = vstd::slice::slice_to_vec(b);
    out.append(&mut part);
}

pub fn push_str(out: &mut Vec<u8>, s: &str)
    ensures
        final(out)@ == old(out)@ + string_bytes(s@),
{
    let units = units_of(s);
    bytes::push_u32(out, bytes::low_word_of_len(units.len()));
    let ghost head = out@;
    let mut i: usize = 0;
    proof {
        assert(out@ =~= head + unit_bytes(units@.take(0)));
    }
    while i < units.len()
        invariant
            i <= units@.len(),
            out@ == head + unit_bytes(units@.take(i as int)),
        decreases units@.len() - i,
    {
        push_u16(out, units[i]);
        proof {
            bytes::lemma_le_len(units@[i as int] as int);
            assert(unit_bytes(units@.take(i + 1)) =~= unit_bytes(units@.take(i as int))
                + bytes::u16_le(units@[i as int] as int));
            assert(out@ =~= head + unit_bytes(units@.take(i + 1)));
        }
        i = i + 1;
    }
    proof {
        assert(units@.take(i as int) =~= units@);
        assert(out@ =~= old(out)@ + string_bytes(s@));
    }
}

} // verus!
