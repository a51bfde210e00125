//! Records of a save stream: fields in a fixed order.

use vstd::prelude::*;
use crate::bytes;
use crate::bytes::read_u16;
use crate::runtime::stream;
use crate::runtime::stream::{Parsed, StreamError, StreamReader};

verus! {

/// What stands at a place of a record.
#[derive(Debug, Clone, Copy, PartialEq, Eq, Structural)]
pub enum Kind {
    /// A signed number of four bytes.
    Int,
    /// A flag of one byte.
    Flag,
    /// A text.
    Text,
    /// A number of two bytes.
    Half,
    /// Bytes without a meaning.
    Skip(usize),
}

/// A field that was read.
#[derive(Debug)]
pub enum Field {
    Int(i32),
    Flag(bool),
    Text(String),
    Half(u16),
    Skipped,
}

/// What a field holds.
pub enum FieldView {
    Int(int),
    Flag(bool),
    Text(Seq<char>),
    Half(int),
    Skipped,
}

impl Field {
    pub open spec fn view(&self) -> FieldView {
        match self {
            Field::Int(v) => FieldView::Int(*v as int),
            Field::Flag(v) => FieldView::Flag(*v),
            Field::Text(s) => FieldView::Text(s@),
            Field::Half(v) => FieldView::Half(*v as int),
            Field::Skipped => FieldView::Skipped,
        }
    }
}

pub open spec fn views(fields: Seq<Field>) -> Seq<FieldView> {
    fields.map_values(|f: Field| f@)
}

#[verifier::opaque]
pub open spec fn half_of(b: Seq<u8>) -> Parsed<int> {
    if b.len() < 2 {
        Err(StreamError::Truncated)
    } else {
        Ok((bytes::u16_at(b, 0), b.skip(2)))
    }
}

/// A field at the front of `b`.
pub open spec fn field_of(b: Seq<u8>, kind: Kind) -> Parsed<FieldView> {
    match kind {
        Kind::Int => match stream::i32_of(b) {
            Ok((v, rest)) => Ok((FieldView::Int(v), rest)),
            Err(e) => Err(e),
        },
        Kind::Flag => match stream::bool_of(b) {
            Ok((v, rest)) => Ok((FieldView::Flag(v), rest)),
            Err(e) => Err(e),
        },
        Kind::Text => match stream::string_of(b) {
            Ok((v, rest)) => Ok((FieldView::Text(v), rest)),
            Err(e) => Err(e),
        },
        Kind::Half => match half_of(b) {
            Ok((v, rest)) => Ok((FieldView::Half(v), rest)),
            Err(e) => Err(e),
        },
        Kind::Skip(n) => match stream::raw_of(b, n as int) {
            Ok((_, rest)) => Ok((FieldView::Skipped, rest)),
            Err(e) => Err(e),
        },
    }
}

/// Fields of these kinds at the front of `b`.
pub open spec fn fields_of(b: Seq<u8>, kinds: Seq<Kind>) -> Parsed<Seq<FieldView>>
    decreases kinds.len(),
{
    if kinds.len() == 0 {
        Ok((Seq::empty(), b))
    } else {
        match fields_of(b, kinds.drop_last()) {
            Err(e) => Err(e),
            Ok((front, rest)) => match field_of(rest, kinds.last()) {
                Err(e) => Err(e),
                Ok((f, tail)) => Ok((front.push(f), tail)),
            },
        }
    }
}

/// `n` fields of one kind.
pub open spec fn rep(kind: Kind, n: int) -> Seq<Kind> {
    Seq::new(n as nat, |i: int| kind)
}

pub open spec fn int_at(f: Seq<FieldView>, k: int) -> i64 {
    match f[k] {
        FieldView::Int(v) => v as i64,
        _ => 0,
    }
}

pub open spec fn flag_at(f: Seq<FieldView>, k: int) -> bool {
    match f[k] {
        FieldView::Flag(v) => v,
        _ => false,
    }
}

pub open spec fn text_at(f: Seq<FieldView>, k: int) -> Seq<char> {
    match f[k] {
        FieldView::Text(s) => s,
        _ => Seq::empty(),
    }
}

pub open spec fn half_at(f: Seq<FieldView>, k: int) -> u16 {
    match f[k] {
        FieldView::Half(v) => v as u16,
        _ => 0,
    }
}

/// A record that fails behind its front fails as a whole.
pub proof fn lemma_front_fails(b: Seq<u8>, kinds: Seq<Kind>, n: int)
    requires
        0 <= n <= kinds.len(),
        fields_of(b, kinds.take(n)) is Err,
    ensures
        fields_of(b, kinds) is Err,
        fields_of(b, kinds)->Err_0 == fields_of(b, kinds.take(n))->Err_0,
    decreases kinds.len() - n,
{
    if n == kinds.len() {
        assert(kinds.take(n) =~= kinds);
    } else {
        assert(kinds.take(n + 1).drop_last() =~= kinds.take(n));
        lemma_front_fails(b, kinds, n + 1);
    }
}

fn read_half(rd: &mut StreamReader) -> (r: Result<u16, StreamError>)
    requires
        old(rd).wf(),
    ensures
        final(rd).wf(),
        final(rd).data == old(rd).data,
        match (r, half_of(old(rd).rest())) {
            (Ok(v), Ok(p)) => v == p.0 && final(rd).rest() == p.1,
            (Err(a), Err(b)) => a == b,
            _ => false,
        },
{
    proof {
        reveal(half_of);
    }
    if rd.data.len() - rd.pos < 2 {
        return Err(StreamError::Truncated);
    }
    let v: u16 = read_u16(rd.data, rd.pos);
    proof {
        assert(bytes::u16_at(rd.rest(), 0) == v);
    }
    rd.pos = rd.pos + 2;
    proof {
        assert(rd.rest() =~= old(rd).rest().skip(2));
    }
    Ok(v)
}

fn read_field(rd: &mut StreamReader, kind: Kind) -> (r: Result<Field, StreamError>)
    requires
        old(rd).wf(),
    ensures
        final(rd).wf(),
        final(rd).data == old(rd).data,
        match (r, field_of(old(rd).rest(), kind)) {
            (Ok(v), Ok(p)) => v@ == p.0 && final(rd).rest() == p.1,
            (Err(a), Err(b)) => a == b,
            _ => false,
        },
{
    match kind {
        Kind::Int => match rd.i32() {
            Ok(v) => Ok(Field::Int(v)),
            Err(e) => Err(e),
        },
        Kind::Flag => match rd.bool() {
            Ok(v) => Ok(Field::Flag(v)),
            Err(e) => Err(e),
        },
        Kind::Text => match rd.string() {
            Ok(v) => Ok(Field::Text(v)),
            Err(e) => Err(e),
        },
        Kind::Half => match read_half(rd) {
            Ok(v) => Ok(Field::Half(v)),
            Err(e) => Err(e),
        },
        Kind::Skip(n) => match rd.skip(n) {
            Ok(_) => Ok(Field::Skipped),
            Err(e) => Err(e),
        },
    }
}

/// Reads a record.
pub fn read_record(rd: &mut StreamReader, kinds: &Vec<Kind>) -> (r: Result<Vec<Field>, StreamError>)
    requires
        old(rd).wf(),
    ensures
        final(rd).wf(),
        final(rd).data == old(rd).data,
        match (r, fields_of(old(rd).rest(), kinds@)) {
            (Ok(v), Ok(p)) => views(v@) == p.0 && v@.len() == kinds@.len() && final(rd).rest()
                == p.1,
            (Err(a), Err(b)) => a == b,
            _ => false,
        },
{
    let mut out: Vec<Field> = Vec::new();
    let mut i: usize = 0;
    let ghost b = rd.rest();
    proof {
        assert(kinds@.take(0) =~= Seq::<Kind>::empty());
        assert(views(out@) =~= Seq::<FieldView>::empty());
    }
    while i < kinds.len()
        invariant
            i <= kinds@.len(),
            rd.wf(),
            rd.data == old(rd).data,
            b == old(rd).rest(),
            out@.len() == i,
            fields_of(b, kinds@.take(i as int)) == Ok::<_, StreamError>((views(out@), rd.rest())),
        decreases kinds@.len() - i,
    {
        proof {
            let taken = kinds@.take(i + 1);
            assert(taken.drop_last() =~= kinds@.take(i as int));
            assert(taken.last() == kinds@[i as int]);
        }
        let ghost before = views(out@);
        match read_field(rd, kinds[i]) {
            Ok(f) => {
                out.push(f);
                proof {
                    assert(views(out@) =~= before.push(f@));
                }
            },
            Err(e) => {
                proof {
                    lemma_front_fails(b, kinds@, i + 1);
                }
                return Err(e);
            },
        }
        i = i + 1;
    }
    proof {
        assert(kinds@.take(i as int) =~= kinds@);
    }
    Ok(out)
}

/// Puts `n` fields of one kind behind a layout.
pub fn push_kinds(kinds: &mut Vec<Kind>, kind: Kind, n: usize)
    ensures
        final(kinds)@ == old(kinds)@ + rep(kind, n as int),
{
    let ghost first = kinds@;
    let mut i: usize = 0;
    proof {
        assert(first + rep(kind, 0) =~= first);
    }
    while i < n
        invariant
            i <= n,
            kinds@ == first + rep(kind, i as int),
        decreases n - i,
    {
        kinds.push(kind);
        i = i + 1;
        proof {
            assert(kinds@ =~= first + rep(kind, i as int));
        }
    }
}

pub fn int_field(f: &Vec<Field>, k: usize) -> (r: i64)
    requires
        k < f@.len(),
    ensures
        r == int_at(views(f@), k as int),
        i32::MIN <= r <= i32::MAX,
{
    match &f[k] {
        Field::Int(v) => *v as i64,
        _ => 0,
    }
}

pub fn flag_field(f: &Vec<Field>, k: usize) -> (r: bool)
    requires
        k < f@.len(),
    ensures
        r == flag_at(views(f@), k as int),
{
    match &f[k] {
        Field::Flag(v) => *v,
        _ => false,
    }
}

pub fn half_field(f: &Vec<Field>, k: usize) -> (r: u16)
    requires
        k < f@.len(),
    ensures
        r == half_at(views(f@), k as int),
{
    match &f[k] {
        Field::Half(v) => *v,
        _ => 0,
    }
}

pub fn text_field(f: &Vec<Field>, k: usize) -> (r: String)
    requires
        k < f@.len(),
    ensures
        r@ == text_at(views(f@), k as int),
{
    match &f[k] {
        Field::Text(s) => s.clone(),
        _ => {
            let empty = String::new();
            proof {
                assert(empty@ =~= Seq::<char>::empty());
            }
            empty
        },
    }
}

// Lists.

/// A count of items that take at least `least` bytes each.
pub open spec fn count_of(b: Seq<u8>, least: int) -> Parsed<int> {
    match stream::i32_of(b) {
        Err(e) => Err(e),
        Ok((n, rest)) => if n < 0 || n > rest.len() as int / least {
            Err(StreamError::InvalidCount)
        } else {
            Ok((n, rest))
        },
    }
}

/// Reads a count. One that the rest of the stream cannot hold is refused.
pub fn read_count(rd: &mut StreamReader, least: usize) -> (r: Result<usize, StreamError>)
    requires
        old(rd).wf(),
        least > 0,
    ensures
        final(rd).wf(),
        final(rd).data == old(rd).data,
        match (r, count_of(old(rd).rest(), least as int)) {
            (Ok(n), Ok(p)) => n == p.0 && final(rd).rest() == p.1 && n <= i32::MAX,
            (Err(a), Err(b)) => a == b,
            _ => false,
        },
{
    match rd.i32() {
        Ok(n) => {
            if n < 0 || n as usize > rd.remaining() / least {
                return Err(StreamError::InvalidCount);
            }
            Ok(n as usize)
        },
        Err(e) => Err(e),
    }
}

/// `n` numbers.
pub open spec fn ints_of(b: Seq<u8>, n: int) -> Parsed<Seq<i64>>
    decreases n,
{
    if n <= 0 {
        Ok((Seq::empty(), b))
    } else {
        match ints_of(b, n - 1) {
            Err(e) => Err(e),
            Ok((front, rest)) => match stream::i32_of(rest) {
                Err(e) => Err(e),
                Ok((v, tail)) => Ok((front.push(v as i64), tail)),
            },
        }
    }
}

/// A count and as many numbers.
pub open spec fn int_list_of(b: Seq<u8>) -> Parsed<Seq<i64>> {
    match count_of(b, 4) {
        Err(e) => Err(e),
        Ok((n, rest)) => ints_of(rest, n),
    }
}

proof fn lemma_ints_fail(b: Seq<u8>, k: int, n: int)
    requires
        0 <= k <= n,
        ints_of(b, k) is Err,
    ensures
        ints_of(b, n) is Err,
        ints_of(b, n)->Err_0 == ints_of(b, k)->Err_0,
    decreases n,
{
    if k < n {
        lemma_ints_fail(b, k, n - 1);
    }
}

/// Reads a count and as many numbers.
pub fn read_int_list(rd: &mut StreamReader) -> (r: Result<Vec<i64>, StreamError>)
    requires
        old(rd).wf(),
    ensures
        final(rd).wf(),
        final(rd).data == old(rd).data,
        match (r, int_list_of(old(rd).rest())) {
            (Ok(v), Ok(p)) => v@ == p.0 && final(rd).rest() == p.1,
            (Err(a), Err(b)) => a == b,
            _ => false,
        },
{
    let n: usize = match read_count(rd, 4) {
        Ok(n) => n,
        Err(e) => {
            return Err(e);
        },
    };
    let ghost b = rd.rest();
    let mut out: Vec<i64> = Vec::new();
    let mut i: usize = 0;
    while i < n
        invariant
            i <= n,
            rd.wf(),
            rd.data == old(rd).data,
            int_list_of(old(rd).rest()) == ints_of(b, n as int),
            ints_of(b, i as int) == Ok::<_, StreamError>((out@, rd.rest())),
        decreases n - i,
    {
        match rd.i32() {
            Ok(v) => {
                out.push(v as i64);
            },
            Err(e) => {
                proof {
                    lemma_ints_fail(b, i + 1, n as int);
                }
                return Err(e);
            },
        }
        i = i + 1;
    }
    Ok(out)
}

} // verus!
