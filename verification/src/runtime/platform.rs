//! Requests to the embedding host: how their fields are written as one line of
//! text, and how the host's answers are read.
//!
//! A form is a list of `key=value` fields joined by `&`. Every byte of a key or
//! value that is not a letter, a digit or one of `-_.~` is written as `%` and
//! two hexadecimal digits.

use vstd::prelude::*;
use vstd::utf8;
use crate::text;
use crate::text::{chars_of, string_from_utf8, text_of};
use crate::text_map::TextMap;

verus! {

/// Whether a byte stands for itself in a form.
pub open spec fn plain(b: u8) -> bool {
    ||| 0x30 <= b <= 0x39
    ||| 0x41 <= b <= 0x5A
    ||| 0x61 <= b <= 0x7A
    ||| b == 0x2D
    ||| b == 0x5F
    ||| b == 0x2E
    ||| b == 0x7E
}

/// A capital hexadecimal digit.
pub open spec fn hex_digit(v: int) -> char {
    if v < 10 {
        (0x30 + v) as char
    } else {
        (0x41 + v - 10) as char
    }
}

/// How one byte is written.
pub open spec fn escaped(b: u8) -> Seq<char> {
    if plain(b) {
        seq![b as char]
    } else {
        seq!['%', hex_digit(b as int / 16), hex_digit(b as int % 16)]
    }
}

/// How bytes are written.
pub open spec fn escaped_bytes(b: Seq<u8>) -> Seq<char>
    decreases b.len(),
{
    if b.len() == 0 {
        Seq::empty()
    } else {
        escaped_bytes(b.drop_last()) + escaped(b.last())
    }
}

/// How a text is written.
pub open spec fn encoded(s: Seq<char>) -> Seq<char> {
    escaped_bytes(utf8::encode_utf8(s))
}

/// The value of a hexadecimal digit.
pub open spec fn hex_value(b: u8) -> Option<int> {
    if 0x30 <= b <= 0x39 {
        Some(b - 0x30)
    } else if 0x41 <= b <= 0x46 {
        Some(b - 0x41 + 10)
    } else if 0x61 <= b <= 0x66 {
        Some(b - 0x61 + 10)
    } else {
        None
    }
}

/// The bytes that written bytes stand for; `+` stands for a space.
pub open spec fn unescaped(b: Seq<u8>) -> Option<Seq<u8>>
    decreases b.len(),
{
    if b.len() == 0 {
        Some(Seq::empty())
    } else if b[0] == 0x25 {
        if b.len() < 3 {
            None
        } else {
            match (hex_value(b[1]), hex_value(b[2]), unescaped(b.skip(3))) {
                (Some(h), Some(l), Some(rest)) => Some(seq![(h * 16 + l) as u8] + rest),
                _ => None,
            }
        }
    } else {
        match unescaped(b.skip(1)) {
            Some(rest) => Some(seq![if b[0] == 0x2B { 0x20u8 } else { b[0] }] + rest),
            None => None,
        }
    }
}

/// The text that a written text stands for.
pub open spec fn decoded(s: Seq<char>) -> Option<Seq<char>> {
    match unescaped(utf8::encode_utf8(s)) {
        Some(b) => if utf8::valid_utf8(b) {
            Some(utf8::decode_utf8(b))
        } else {
            None
        },
        None => None,
    }
}

/// The place of the first `c`, or the length where there is none.
pub open spec fn first_of(s: Seq<char>, c: char) -> int
    decreases s.len(),
{
    if s.len() == 0 || s[0] == c {
        0
    } else {
        1 + first_of(s.drop_first(), c)
    }
}

/// The parts of `s` between the characters `c`.
pub open spec fn pieces(s: Seq<char>, c: char) -> Seq<Seq<char>>
    decreases s.len(),
{
    let k = first_of(s, c);
    if k < 0 || k >= s.len() {
        seq![s]
    } else {
        seq![s.take(k)] + pieces(s.skip(k + 1), c)
    }
}

/// The written key of a field.
pub open spec fn field_key(f: Seq<char>) -> Seq<char> {
    f.take(first_of(f, '='))
}

/// The written value of a field, empty where the field has no `=`.
pub open spec fn field_value(f: Seq<char>) -> Seq<char> {
    let k = first_of(f, '=');
    if k < f.len() {
        f.skip(k + 1)
    } else {
        Seq::empty()
    }
}

/// What the fields of a form say, on top of what is known already. Empty
/// fields say nothing, and the last field of a key counts.
pub open spec fn parsed(
    fields: Seq<Seq<char>>,
    known: Map<Seq<char>, Seq<char>>,
) -> Option<Map<Seq<char>, Seq<char>>>
    decreases fields.len(),
{
    if fields.len() == 0 {
        Some(known)
    } else if fields[0].len() == 0 {
        parsed(fields.drop_first(), known)
    } else {
        match (decoded(field_key(fields[0])), decoded(field_value(fields[0]))) {
            (Some(k), Some(v)) => parsed(fields.drop_first(), known.insert(k, v)),
            _ => None,
        }
    }
}

/// How a list of fields is written.
pub open spec fn form(fields: Seq<(Seq<char>, Seq<char>)>) -> Seq<char>
    decreases fields.len(),
{
    if fields.len() == 0 {
        Seq::empty()
    } else {
        let own = encoded(fields.last().0) + seq!['='] + encoded(fields.last().1);
        if fields.len() == 1 {
            own
        } else {
            form(fields.drop_last()) + seq!['&'] + own
        }
    }
}

/// What a list of fields says: the last field of a key counts.
pub open spec fn meaning(fields: Seq<(Seq<char>, Seq<char>)>) -> Map<Seq<char>, Seq<char>>
    decreases fields.len(),
{
    if fields.len() == 0 {
        Map::empty()
    } else {
        meaning(fields.drop_last()).insert(fields.last().0, fields.last().1)
    }
}

/// The texts of a map, by key.
pub open spec fn texts(m: Map<Seq<char>, String>) -> Map<Seq<char>, Seq<char>> {
    m.map_values(|v: String| v@)
}

/// The texts of a list of fields.
pub open spec fn field_texts(fields: Seq<(String, String)>) -> Seq<(Seq<char>, Seq<char>)> {
    Seq::new(fields.len(), |i: int| (fields[i].0@, fields[i].1@))
}

fn hex_char(v: u8) -> (c: char)
    requires
        v < 16,
    ensures
        c == hex_digit(v as int),
{
    if v < 10 {
        (0x30 + v) as char
    } else {
        (0x41 + v - 10) as char
    }
}

pub fn encode(value: &str) -> (out: String)
    ensures
        out@ == encoded(value@),
{
    let bytes = value.as_bytes();
    let mut out = String::new();
    let mut i: usize = 0;
    proof {
        assert(bytes@.take(0) =~= Seq::<u8>::empty());
    }
    while i < bytes.len()
        invariant
            i <= bytes@.len(),
            out@ == escaped_bytes(bytes@.take(i as int)),
        decreases bytes@.len() - i,
    {
        let b: u8 = bytes[i];
        let ghost before = out@;
        if (0x30 <= b && b <= 0x39) || (0x41 <= b && b <= 0x5A) || (0x61 <= b && b <= 0x7A) || b
            == 0x2D || b == 0x5F || b == 0x2E || b == 0x7E {
            out.push(b as char);
        } else {
            out.push('%');
            out.push(hex_char(b / 16));
            out.push(hex_char(b % 16));
        }
        proof {
            assert(out@ =~= before + escaped(b));
            assert(bytes@.take(i + 1).drop_last() =~= bytes@.take(i as int));
        }
        i = i + 1;
    }
    proof {
        assert(bytes@.take(i as int) =~= bytes@);
    }
    out
}

fn hex_of(b: u8) -> (r: Option<u8>)
    ensures
        match r {
            Some(v) => hex_value(b) == Some(v as int) && v < 16,
            None => hex_value(b) is None,
        },
{
    if 0x30 <= b && b <= 0x39 {
        Some(b - 0x30)
    } else if 0x41 <= b && b <= 0x46 {
        Some(b - 0x41 + 10)
    } else if 0x61 <= b && b <= 0x66 {
        Some(b - 0x61 + 10)
    } else {
        None
    }
}

/// Where the rest cannot be read, the whole cannot.
proof fn lemma_rest(out: Seq<u8>, b: Seq<u8>, rest: Seq<u8>)
    requires
        match unescaped(rest) {
            Some(r) => unescaped(b) == Some(out + r),
            None => unescaped(b) is None,
        },
        rest.len() == 0,
    ensures
        unescaped(b) == Some(out),
{
    assert(out + Seq::<u8>::empty() =~= out);
}

pub fn decode(value: &str) -> (r: Option<String>)
    ensures
        match r {
            Some(s) => decoded(value@) == Some(s@),
            None => decoded(value@) is None,
        },
{
    let bytes = value.as_bytes();
    let n: usize = bytes.len();
    let mut out: Vec<u8> = Vec::new();
    let mut i: usize = 0;
    proof {
        assert(bytes@.skip(0) =~= bytes@);
        match unescaped(bytes@) {
            Some(r) => {
                assert(out@ + r =~= r);
            },
            None => {},
        }
    }
    while i < n
        invariant
            n == bytes@.len(),
            i <= n,
            bytes@ == utf8::encode_utf8(value@),
            match unescaped(bytes@.skip(i as int)) {
                Some(rest) => unescaped(bytes@) == Some(out@ + rest),
                None => unescaped(bytes@) is None,
            },
        decreases n - i,
    {
        let ghost here = bytes@.skip(i as int);
        let ghost before = out@;
        proof {
            assert(here[0] == bytes@[i as int]);
        }
        if bytes[i] == 0x25 {
            if n - i < 3 {
                return None;
            }
            proof {
                assert(here[1] == bytes@[i + 1]);
                assert(here[2] == bytes@[i + 2]);
                assert(here.skip(3) =~= bytes@.skip(i + 3));
            }
            match (hex_of(bytes[i + 1]), hex_of(bytes[i + 2])) {
                (Some(h), Some(l)) => {
                    let b: u8 = h * 16 + l;
                    out.push(b);
                    proof {
                        match unescaped(bytes@.skip(i + 3)) {
                            Some(rest) => {
                                assert(out@ + rest =~= before + (seq![b] + rest));
                            },
                            None => {},
                        }
                    }
                    i = i + 3;
                },
                _ => {
                    return None;
                },
            }
        } else {
            let b: u8 = if bytes[i] == 0x2B { 0x20 } else { bytes[i] };
            proof {
                assert(here.skip(1) =~= bytes@.skip(i + 1));
            }
            out.push(b);
            proof {
                match unescaped(bytes@.skip(i + 1)) {
                    Some(rest) => {
                        assert(out@ + rest =~= before + (seq![b] + rest));
                    },
                    None => {},
                }
            }
            i = i + 1;
        }
    }
    proof {
        lemma_rest(out@, bytes@, bytes@.skip(i as int));
    }
    string_from_utf8(out)
}

/// The first `c` at or after `from`, or the length where there is none.
fn find_char(chars: &[char], from: usize, c: char) -> (k: usize)
    requires
        from <= chars@.len(),
    ensures
        from <= k <= chars@.len(),
        k - from == first_of(chars@.skip(from as int), c),
{
    let mut k: usize = from;
    while k < chars.len() && chars[k] != c
        invariant
            from <= k <= chars@.len(),
            first_of(chars@.skip(from as int), c) == (k - from) + first_of(
                chars@.skip(k as int),
                c,
            ),
        decreases chars@.len() - k,
    {
        proof {
            let here = chars@.skip(k as int);
            assert(here[0] == chars@[k as int]);
            assert(here.drop_first() =~= chars@.skip(k + 1));
        }
        k = k + 1;
    }
    proof {
        if k < chars@.len() {
            assert(chars@.skip(k as int)[0] == c);
        }
    }
    k
}

/// The key and value of one field, or `None` where either cannot be read.
fn read_field(f: &[char]) -> (r: Option<(String, String)>)
    ensures
        match r {
            Some(p) => decoded(field_key(f@)) == Some(p.0@) && decoded(field_value(f@)) == Some(
                p.1@,
            ),
            None => decoded(field_key(f@)) is None || decoded(field_value(f@)) is None,
        },
{
    proof {
        assert(f@.skip(0) =~= f@);
    }
    let k: usize = find_char(f, 0, '=');
    let key = text_of(vstd::slice::slice_subrange(f, 0, k));
    let value = if k < f.len() {
        text_of(vstd::slice::slice_subrange(f, k + 1, f.len()))
    } else {
        String::new()
    };
    proof {
        assert(key@ =~= field_key(f@));
        assert(value@ =~= field_value(f@));
    }
    match (decode(key.as_str()), decode(value.as_str())) {
        (Some(a), Some(b)) => Some((a, b)),
        _ => None,
    }
}

/// What a form says, or `None` where a field cannot be read.
pub fn parse_form(value: &str) -> (r: Option<TextMap<String>>)
    ensures
        match r {
            Some(m) => m.wf() && parsed(pieces(value@, '&'), Map::empty()) == Some(texts(m@)),
            None => parsed(pieces(value@, '&'), Map::empty()) is None,
        },
{
    let chars = chars_of(value);
    let mut m: TextMap<String> = TextMap::new();
    let mut at: usize = 0;
    proof {
        assert(chars@.skip(0) =~= value@);
        assert(texts(m@) =~= Map::<Seq<char>, Seq<char>>::empty());
    }
    loop
        invariant
            at <= chars@.len(),
            m.wf(),
            parsed(pieces(chars@.skip(at as int), '&'), texts(m@)) == parsed(
                pieces(value@, '&'),
                Map::empty(),
            ),
        decreases chars@.len() - at,
    {
        let ghost here = chars@.skip(at as int);
        let end: usize = find_char(&chars, at, '&');
        let f = vstd::slice::slice_subrange(chars.as_slice(), at, end);
        let ghost all = pieces(here, '&');
        let ghost before = texts(m@);
        proof {
            assert(f@ =~= here.take(end - at));
            if end < chars@.len() {
                assert(here.skip(end - at + 1) =~= chars@.skip(end + 1));
                assert(all[0] == f@);
                assert(all.drop_first() =~= pieces(chars@.skip(end + 1), '&'));
            } else {
                assert(f@ =~= here);
                assert(all.drop_first() =~= Seq::<Seq<char>>::empty());
            }
        }
        if f.len() > 0 {
            match read_field(f) {
                Some(p) => {
                    let ghost (k, v) = (p.0@, p.1@);
                    m.insert(p.0, p.1);
                    proof {
                        assert(texts(m@) =~= before.insert(k, v));
                    }
                },
                None => {
                    return None;
                },
            }
        }
        if end >= chars.len() {
            proof {
                assert(all[0] == f@);
                assert(parsed(all.drop_first(), texts(m@)) == Some(texts(m@)));
            }
            return Some(m);
        }
        at = end + 1;
    }
}

/// The host's side of the requests: whether one listens, and the number of the
/// last request.
#[derive(Debug, Clone, Copy)]
pub struct PlatformBridge {
    pub attached: bool,
    pub last_id: u64,
}

impl Default for PlatformBridge {
    fn default() -> (b: PlatformBridge)
        ensures
            !b.attached,
            b.last_id == 0,
    {
        PlatformBridge { attached: false, last_id: 0 }
    }
}

/// Whether a text can be handed to the host: it holds no zero character.
pub open spec fn sendable(s: Seq<char>) -> bool {
    !s.contains('\0')
}

impl PlatformBridge {
    pub fn available(&self) -> (r: bool)
        ensures
            r == self.attached,
    {
        self.attached
    }

    /// A new request number. Numbers count up from 1 and never are 0.
    pub fn next_id(&mut self) -> (id: u64)
        ensures
            id == (if old(self).last_id == u64::MAX {
                1
            } else {
                old(self).last_id + 1
            }),
            final(self).last_id == id,
            final(self).attached == old(self).attached,
    {
        self.last_id = if self.last_id == u64::MAX { 1 } else { self.last_id + 1 };
        self.last_id
    }

    /// The argument to hand to the host with a request, or `None` where no
    /// host listens or the operation's name cannot be handed over.
    pub fn request(&self, operation: &str, fields: &[(String, String)]) -> (r: Option<String>)
        ensures
            r is Some <==> self.attached && sendable(operation@),
            r matches Some(s) ==> s@ == form(field_texts(fields@)) && sendable(s@),
    {
        if !self.attached {
            return None;
        }
        let name = chars_of(operation);
        let mut i: usize = 0;
        while i < name.len()
            invariant
                name@ == operation@,
                self.attached,
                i <= name@.len(),
                forall|k: int| 0 <= k < i ==> name@[k] != '\0',
            decreases name@.len() - i,
        {
            if name[i] == '\0' {
                proof {
                    assert(operation@[i as int] == '\0');
                }
                return None;
            }
            i = i + 1;
        }
        let out = write_form(fields);
        proof {
            lemma_form_chars(field_texts(fields@));
        }
        Some(out)
    }
}

fn write_form(fields: &[(String, String)]) -> (out: String)
    ensures
        out@ == form(field_texts(fields@)),
{
    let mut out = String::new();
    let ghost all = field_texts(fields@);
    let mut i: usize = 0;
    proof {
        assert(all.take(0) =~= Seq::<(Seq<char>, Seq<char>)>::empty());
    }
    while i < fields.len()
        invariant
            all == field_texts(fields@),
            i <= fields@.len(),
            out@ == form(all.take(i as int)),
        decreases fields@.len() - i,
    {
        let ghost before = out@;
        if i > 0 {
            out.push('&');
        }
        let key = encode(fields[i].0.as_str());
        let value = encode(fields[i].1.as_str());
        out.append(key.as_str());
        out.push('=');
        out.append(value.as_str());
        proof {
            assert(all.take(i + 1).drop_last() =~= all.take(i as int));
            let own = key@ + seq!['='] + value@;
            if i > 0 {
                assert(out@ =~= before + seq!['&'] + own);
            } else {
                assert(out@ =~= own);
            }
        }
        i = i + 1;
    }
    proof {
        assert(all.take(i as int) =~= all);
    }
    out
}

/// A character that writing can produce inside a key or value.
spec fn written(c: char) -> bool {
    c == '%' || ('\0' < c <= '\u{7f}' && plain(c as u8))
}

proof fn lemma_escaped_chars(b: Seq<u8>)
    ensures
        forall|i: int| 0 <= i < escaped_bytes(b).len() ==> written(#[trigger] escaped_bytes(b)[i]),
    decreases b.len(),
{
    if b.len() > 0 {
        let head = escaped_bytes(b.drop_last());
        let own = escaped(b.last());
        lemma_escaped_chars(b.drop_last());
        assert forall|i: int| 0 <= i < escaped_bytes(b).len() implies written(
            #[trigger] escaped_bytes(b)[i],
        ) by {
            if i < head.len() {
                assert(escaped_bytes(b)[i] == head[i]);
            } else {
                assert(escaped_bytes(b)[i] == own[i - head.len()]);
            }
        }
    }
}

proof fn lemma_form_chars(fields: Seq<(Seq<char>, Seq<char>)>)
    ensures
        sendable(form(fields)),
        forall|i: int|
            0 <= i < form(fields).len() ==> (#[trigger] form(fields)[i]) as u32 <= 0x7F && form(
                fields,
            )[i] != '\0',
    decreases fields.len(),
{
    if fields.len() > 0 {
        let k = encoded(fields.last().0);
        let v = encoded(fields.last().1);
        lemma_escaped_chars(utf8::encode_utf8(fields.last().0));
        lemma_escaped_chars(utf8::encode_utf8(fields.last().1));
        lemma_form_chars(fields.drop_last());
        let own = k + seq!['='] + v;
        assert forall|i: int| 0 <= i < own.len() implies (#[trigger] own[i]) as u32 <= 0x7F
            && own[i] != '\0' by {
            if i < k.len() {
                assert(written(k[i]));
            } else if i > k.len() {
                assert(written(v[i - k.len() - 1]));
            }
        }
        let head = form(fields.drop_last());
        assert forall|i: int| 0 <= i < form(fields).len() implies (#[trigger] form(fields)[i])
            as u32 <= 0x7F && form(fields)[i] != '\0' by {
            if fields.len() > 1 {
                if i < head.len() {
                    assert(form(fields)[i] == head[i]);
                } else if i > head.len() {
                    assert(form(fields)[i] == own[i - head.len() - 1]);
                }
            }
        }
    }
}

/// The bytes of a text that is written with ASCII characters alone.
proof fn lemma_escaped_ascii(b: Seq<u8>)
    ensures
        utf8::is_ascii_chars(escaped_bytes(b)),
{
    lemma_escaped_chars(b);
    let e = escaped_bytes(b);
    assert forall|i: int| 0 <= i < e.len() implies '\0' <= #[trigger] e[i] <= '\u{7f}' by {
        assert(written(e[i]));
    }
}

/// The bytes of a written text.
spec fn escaped_raw(b: Seq<u8>) -> Seq<u8> {
    Seq::new(escaped_bytes(b).len(), |i: int| escaped_bytes(b)[i] as u8)
}

/// Reading what was written in front of `tail`.
proof fn lemma_unescape(b: Seq<u8>, tail: Seq<u8>)
    ensures
        unescaped(escaped_raw(b) + tail) == (match unescaped(tail) {
            Some(rest) => Some(b + rest),
            None => None,
        }),
    decreases b.len(),
{
    if b.len() == 0 {
        assert(escaped_raw(b) + tail =~= tail);
        match unescaped(tail) {
            Some(rest) => {
                assert(b + rest =~= rest);
            },
            None => {},
        }
    } else {
        let front = b.drop_last();
        let c = b.last();
        let own = Seq::new(escaped(c).len(), |i: int| escaped(c)[i] as u8);
        assert(escaped_raw(b) + tail =~= escaped_raw(front) + (own + tail));
        lemma_unescape(front, own + tail);
        lemma_unescape_one(c, own, tail);
        match unescaped(tail) {
            Some(rest) => {
                assert(front + (seq![c] + rest) =~= b + rest);
            },
            None => {},
        }
    }
}

proof fn lemma_unescape_one(c: u8, own: Seq<u8>, tail: Seq<u8>)
    requires
        own == Seq::new(escaped(c).len(), |i: int| escaped(c)[i] as u8),
    ensures
        unescaped(own + tail) == (match unescaped(tail) {
            Some(rest) => Some(seq![c] + rest),
            None => None,
        }),
{
    let all = own + tail;
    if plain(c) {
        assert(all[0] == c);
        assert(all.skip(1) =~= tail);
    } else {
        let h = c as int / 16;
        let l = c as int % 16;
        assert(all[0] == 0x25);
        assert(all[1] == hex_digit(h) as u8);
        assert(all[2] == hex_digit(l) as u8);
        assert(hex_value(all[1]) == Some(h));
        assert(hex_value(all[2]) == Some(l));
        assert(all.skip(3) =~= tail);
        assert((h * 16 + l) as u8 == c);
    }
}

/// Reading gives back what was written, for every text.
pub proof fn encoding_round_trip(s: Seq<char>)
    ensures
        decoded(encoded(s)) == Some(s),
{
    let b = utf8::encode_utf8(s);
    let e = escaped_bytes(b);
    lemma_escaped_ascii(b);
    utf8::is_ascii_chars_encode_utf8(e);
    assert(utf8::encode_utf8(e) =~= escaped_raw(b));
    lemma_unescape(b, Seq::empty());
    assert(escaped_raw(b) + Seq::<u8>::empty() =~= escaped_raw(b));
    assert(b + Seq::<u8>::empty() =~= b);
    utf8::encode_utf8_valid_utf8(s);
    utf8::encode_utf8_decode_utf8(s);
}

proof fn lemma_first_of(s: Seq<char>, c: char, k: int)
    requires
        0 <= k <= s.len(),
        forall|i: int| 0 <= i < k ==> s[i] != c,
        k < s.len() ==> s[k] == c,
    ensures
        first_of(s, c) == k,
    decreases k,
{
    if k > 0 {
        let rest = s.drop_first();
        assert forall|i: int| 0 <= i < k - 1 implies rest[i] != c by {
            assert(rest[i] == s[i + 1]);
        }
        lemma_first_of(rest, c, k - 1);
    }
}

/// The written form of one field.
spec fn field(f: (Seq<char>, Seq<char>)) -> Seq<char> {
    encoded(f.0) + seq!['='] + encoded(f.1)
}

proof fn lemma_field(f: (Seq<char>, Seq<char>))
    ensures
        field(f).len() > 0,
        field_key(field(f)) == encoded(f.0),
        field_value(field(f)) == encoded(f.1),
        forall|i: int| 0 <= i < field(f).len() ==> #[trigger] field(f)[i] != '&',
{
    let k = encoded(f.0);
    let v = encoded(f.1);
    let all = field(f);
    lemma_escaped_chars(utf8::encode_utf8(f.0));
    lemma_escaped_chars(utf8::encode_utf8(f.1));
    assert forall|i: int| 0 <= i < k.len() implies all[i] != '=' by {
        assert(written(k[i]));
        assert(all[i] == k[i]);
    }
    assert(all[k.len() as int] == '=');
    lemma_first_of(all, '=', k.len() as int);
    assert(all.take(k.len() as int) =~= k);
    assert(all.skip(k.len() as int + 1) =~= v);
    assert forall|i: int| 0 <= i < all.len() implies #[trigger] all[i] != '&' by {
        if i < k.len() {
            assert(written(k[i]));
        } else if i > k.len() {
            assert(written(v[i - k.len() - 1]));
        }
    }
}

/// The fields as they are written one by one.
spec fn field_list(fields: Seq<(Seq<char>, Seq<char>)>) -> Seq<Seq<char>> {
    Seq::new(fields.len(), |i: int| field(fields[i]))
}

/// A written form splits into its fields, whatever other field follows.
proof fn lemma_pieces(fields: Seq<(Seq<char>, Seq<char>)>, last: Seq<char>)
    requires
        forall|i: int| 0 <= i < last.len() ==> last[i] != '&',
    ensures
        fields.len() > 0 ==> pieces(form(fields) + seq!['&'] + last, '&') == field_list(fields)
            + seq![last],
        pieces(last, '&') == seq![last],
    decreases fields.len(),
{
    lemma_first_of(last, '&', last.len() as int);
    if fields.len() > 0 {
        let own = field(fields.last());
        lemma_field(fields.last());
        let tail = own + seq!['&'] + last;
        lemma_first_of(tail, '&', own.len() as int);
        assert(tail.take(own.len() as int) =~= own);
        assert(tail.skip(own.len() as int + 1) =~= last);
        assert(pieces(last, '&') =~= seq![last]);
        assert(pieces(tail, '&') =~= seq![own, last]);
        if fields.len() == 1 {
            assert(form(fields) + seq!['&'] + last =~= tail);
            assert(field_list(fields) + seq![last] =~= seq![own, last]);
        } else {
            lemma_pieces_front(fields.drop_last(), tail);
            assert(form(fields) + seq!['&'] + last =~= form(fields.drop_last()) + seq!['&'] + tail);
            assert(field_list(fields) + seq![last] =~= field_list(fields.drop_last()) + seq![
                own,
                last,
            ]);
        }
    }
}

/// The fields in front come off one by one, whatever follows.
proof fn lemma_pieces_front(fields: Seq<(Seq<char>, Seq<char>)>, tail: Seq<char>)
    requires
        fields.len() > 0,
    ensures
        pieces(form(fields) + seq!['&'] + tail, '&') == field_list(fields) + pieces(tail, '&'),
    decreases fields.len(),
{
    let own = field(fields.last());
    lemma_field(fields.last());
    let here = own + seq!['&'] + tail;
    assert forall|i: int| 0 <= i < own.len() implies here[i] != '&' by {
        assert(here[i] == own[i]);
    }
    lemma_first_of(here, '&', own.len() as int);
    assert(here.take(own.len() as int) =~= own);
    assert(here.skip(own.len() as int + 1) =~= tail);
    assert(pieces(here, '&') == seq![own] + pieces(tail, '&'));
    if fields.len() == 1 {
        assert(form(fields) + seq!['&'] + tail =~= here);
        assert(field_list(fields) =~= seq![own]);
    } else {
        lemma_pieces_front(fields.drop_last(), here);
        assert(form(fields) + seq!['&'] + tail =~= form(fields.drop_last()) + seq!['&'] + here);
        assert(field_list(fields.drop_last()) + (seq![own] + pieces(tail, '&')) =~= field_list(
            fields,
        ) + pieces(tail, '&'));
    }
}

/// What written fields say, on top of what is known.
spec fn added(
    fields: Seq<(Seq<char>, Seq<char>)>,
    known: Map<Seq<char>, Seq<char>>,
) -> Map<Seq<char>, Seq<char>>
    decreases fields.len(),
{
    if fields.len() == 0 {
        known
    } else {
        added(fields.drop_last(), known).insert(fields.last().0, fields.last().1)
    }
}

proof fn lemma_added_front(
    fields: Seq<(Seq<char>, Seq<char>)>,
    known: Map<Seq<char>, Seq<char>>,
)
    requires
        fields.len() > 0,
    ensures
        added(fields, known) == added(
            fields.drop_first(),
            known.insert(fields[0].0, fields[0].1),
        ),
    decreases fields.len(),
{
    reveal_with_fuel(added, 2);
    if fields.len() == 1 {
        assert(fields.drop_first() =~= Seq::<(Seq<char>, Seq<char>)>::empty());
        assert(fields.drop_last() =~= Seq::<(Seq<char>, Seq<char>)>::empty());
    } else {
        assert(fields.drop_first().last() == fields.last());
        assert(fields.drop_last()[0] == fields[0]);
        lemma_added_front(fields.drop_last(), known);
        assert(fields.drop_last().drop_first() =~= fields.drop_first().drop_last());
    }
}

proof fn lemma_parsed(fields: Seq<(Seq<char>, Seq<char>)>, known: Map<Seq<char>, Seq<char>>)
    ensures
        parsed(field_list(fields), known) == Some(added(fields, known)),
    decreases fields.len(),
{
    if fields.len() > 0 {
        let f = fields[0];
        lemma_field(f);
        encoding_round_trip(f.0);
        encoding_round_trip(f.1);
        assert(field_list(fields).drop_first() =~= field_list(fields.drop_first()));
        assert(field_list(fields)[0] == field(f));
        lemma_parsed(fields.drop_first(), known.insert(f.0, f.1));
        lemma_added_front(fields, known);
    }
}

proof fn lemma_meaning(fields: Seq<(Seq<char>, Seq<char>)>)
    ensures
        meaning(fields) == added(fields, Map::empty()),
    decreases fields.len(),
{
    if fields.len() > 0 {
        lemma_meaning(fields.drop_last());
    }
}

/// Reading a written form gives back what its fields say, for every list of
/// fields.
pub proof fn form_round_trip(fields: Seq<(Seq<char>, Seq<char>)>)
    ensures
        parsed(pieces(form(fields), '&'), Map::empty()) == Some(meaning(fields)),
{
    lemma_meaning(fields);
    if fields.len() == 0 {
        let none = Seq::<char>::empty();
        lemma_first_of(none, '&', 0);
        assert(pieces(none, '&') =~= seq![none]);
        assert(seq![none].drop_first() =~= Seq::<Seq<char>>::empty());
        assert(parsed(Seq::<Seq<char>>::empty(), Map::empty()) == Some(
            Map::<Seq<char>, Seq<char>>::empty(),
        ));
    } else {
        let own = field(fields.last());
        lemma_field(fields.last());
        lemma_parsed(fields, Map::empty());
        lemma_pieces(fields.drop_last(), own);
        if fields.len() == 1 {
            assert(field_list(fields) =~= seq![own]);
        } else {
            assert(field_list(fields) =~= field_list(fields.drop_last()) + seq![own]);
        }
    }
}

/// Letters, digits and the four marks `-`, `_`, `.` and `~` are sent as they are. Every other
/// byte is sent as a percent sign and two digits, the higher one first, with capital letters.
pub proof fn bytes_are_escaped_by_two_digits(b: u8)
    ensures
        escaped(b).len() == 1 <==> {
            ||| '0' <= b as char <= '9'
            ||| 'A' <= b as char <= 'Z'
            ||| 'a' <= b as char <= 'z'
            ||| b as char == '-'
            ||| b as char == '_'
            ||| b as char == '.'
            ||| b as char == '~'
        },
        escaped(b).len() == 1 ==> escaped(b)[0] == b as char,
        escaped(b).len() != 1 ==> {
            &&& escaped(b).len() == 3
            &&& escaped(b)[0] == '%'
            &&& exists|h: int, l: int|
                #![trigger "0123456789ABCDEF"@[h], "0123456789ABCDEF"@[l]]
                0 <= h < 16 && 0 <= l < 16 && b == 16 * h + l && escaped(b)[1]
                    == "0123456789ABCDEF"@[h] && escaped(b)[2] == "0123456789ABCDEF"@[l]
        },
{
    reveal_strlit("0123456789ABCDEF");
    let h: int = b as int / 16;
    let l: int = b as int % 16;
    assert(hex_digit(h) == "0123456789ABCDEF"@[h]);
    assert(hex_digit(l) == "0123456789ABCDEF"@[l]);
}

/// A plus sign is read as a blank, and a percent sign with the two digits behind it as the byte
/// that they name. Every other byte is read as it is.
pub proof fn escaped_bytes_are_read_one_by_one(b: u8, h: int, l: int, rest: Seq<u8>, r: Seq<u8>)
    requires
        unescaped(rest) == Some(r),
        0 <= h < 16,
        0 <= l < 16,
    ensures
        unescaped(seq!['+' as u8] + rest) == Some(seq![' ' as u8] + r),
        b as char != '+' && b as char != '%' ==> unescaped(seq![b] + rest) == Some(seq![b] + r),
        unescaped(
            seq!['%' as u8, "0123456789ABCDEF"@[h] as u8, "0123456789ABCDEF"@[l] as u8] + rest,
        ) == Some(seq![(16 * h + l) as u8] + r),
        unescaped(
            seq!['%' as u8, "0123456789abcdef"@[h] as u8, "0123456789abcdef"@[l] as u8] + rest,
        ) == Some(seq![(16 * h + l) as u8] + r),
{
    reveal_strlit("0123456789ABCDEF");
    reveal_strlit("0123456789abcdef");
    assert((seq!['+' as u8] + rest).skip(1) =~= rest);
    assert((seq![b] + rest).skip(1) =~= rest);
    let upper = seq!['%' as u8, "0123456789ABCDEF"@[h] as u8, "0123456789ABCDEF"@[l] as u8];
    let lower = seq!['%' as u8, "0123456789abcdef"@[h] as u8, "0123456789abcdef"@[l] as u8];
    assert((upper + rest).skip(3) =~= rest);
    assert((lower + rest).skip(3) =~= rest);
}

/// Of two fields with one name the later one counts.
pub proof fn later_fields_replace_earlier_ones(
    fields: Seq<(Seq<char>, Seq<char>)>,
    name: Seq<char>,
    value: Seq<char>,
    other: Seq<char>,
)
    requires
        other != name,
    ensures
        meaning(fields.push((name, value))).contains_key(name),
        meaning(fields.push((name, value)))[name] == value,
        meaning(fields.push((name, value))).contains_key(other) == meaning(fields).contains_key(
            other,
        ),
        meaning(fields).contains_key(other) ==> meaning(fields.push((name, value)))[other]
            == meaning(fields)[other],
{
    assert(fields.push((name, value)).drop_last() =~= fields);
}

} // verus!
