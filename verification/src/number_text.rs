//! Numbers written in decimal digits.

use vstd::prelude::*;
use crate::text::{chars_of, text_of};

verus! {

pub open spec fn is_digit(c: char) -> bool {
    '0' <= c <= '9'
}

pub open spec fn digit_value(c: char) -> int {
    c as u32 as int - 48
}

pub open spec fn all_digits(s: Seq<char>) -> bool {
    forall|i: int| 0 <= i < s.len() ==> is_digit(#[trigger] s[i])
}

/// The number that a row of digits stands for.
pub open spec fn digits_value(s: Seq<char>) -> int
    decreases s.len(),
{
    if s.len() == 0 {
        0
    } else {
        10 * digits_value(s.drop_last()) + digit_value(s.last())
    }
}

/// The digits behind the sign, if there is one.
pub open spec fn without_sign(s: Seq<char>) -> Seq<char> {
    if s.len() > 0 && (s[0] == '-' || s[0] == '+') {
        s.skip(1)
    } else {
        s
    }
}

/// The number that `s` writes: digits, with a sign before them or none.
pub open spec fn number_of(s: Seq<char>) -> Option<int> {
    let body = without_sign(s);
    if body.len() == 0 || !all_digits(body) {
        None
    } else if s[0] == '-' {
        Some(-digits_value(body))
    } else {
        Some(digits_value(body))
    }
}

/// The number that `s` writes, where it lies between `lo` and `hi`.
pub open spec fn number_within(s: Seq<char>, lo: int, hi: int) -> Option<int> {
    match number_of(s) {
        Some(v) => if lo <= v <= hi {
            Some(v)
        } else {
            None
        },
        None => None,
    }
}

/// The number that `s` writes without a minus sign, up to `hi`.
pub open spec fn natural_within(s: Seq<char>, hi: int) -> Option<int> {
    if s.len() > 0 && s[0] == '-' {
        None
    } else {
        number_within(s, 0, hi)
    }
}

pub proof fn lemma_digits_positive(s: Seq<char>)
    requires
        all_digits(s),
    ensures
        digits_value(s) >= 0,
    decreases s.len(),
{
    if s.len() > 0 {
        assert(is_digit(s[s.len() - 1]));
        assert forall|i: int| 0 <= i < s.len() - 1 implies is_digit(
            #[trigger] s.drop_last()[i],
        ) by {
            assert(is_digit(s[i]));
        }
        lemma_digits_positive(s.drop_last());
    }
}

/// The number of a row of digits, or `None` where something else stands in
/// it or the number is above `u64::MAX`.
pub fn read_digits(s: &[char]) -> (r: Option<u64>)
    ensures
        r == (if all_digits(s@) && digits_value(s@) <= u64::MAX {
            Some(digits_value(s@) as u64)
        } else {
            None
        }),
{
    let mut acc: u128 = 0;
    let mut over: bool = false;
    let mut i: usize = 0;
    while i < s.len()
        invariant
            i <= s@.len(),
            all_digits(s@.take(i as int)),
            !over ==> acc == digits_value(s@.take(i as int)) && acc <= u64::MAX,
            over ==> digits_value(s@.take(i as int)) > u64::MAX,
        decreases s@.len() - i,
    {
        let c = s[i];
        if c < '0' || '9' < c {
            proof {
                assert(!is_digit(s@[i as int]));
            }
            return None;
        }
        let ghost before = s@.take(i as int);
        let d: u128 = (c as u32 - 48) as u128;
        proof {
            let after = s@.take(i + 1);
            assert(after.drop_last() =~= before);
            assert(after.last() == c);
            assert forall|k: int| 0 <= k < after.len() implies is_digit(#[trigger] after[k]) by {
                if k < i {
                    assert(is_digit(before[k]));
                }
            }
            lemma_digits_positive(before);
        }
        if !over {
            acc = acc * 10 + d;
            if acc > u64::MAX as u128 {
                over = true;
            }
        }
        i = i + 1;
    }
    proof {
        assert(s@.take(i as int) =~= s@);
        lemma_digits_positive(s@);
    }
    if over {
        None
    } else {
        Some(acc as u64)
    }
}

/// Reads a signed number. It fails where `s` writes none or one that is out
/// of range.
pub fn parse_i64_chars(s: &[char]) -> (r: Option<i64>)
    ensures
        match r {
            Some(v) => number_within(s@, i64::MIN as int, i64::MAX as int) == Some(v as int),
            None => number_within(s@, i64::MIN as int, i64::MAX as int) is None,
        },
{
    if s.len() == 0 {
        return None;
    }
    let signed: bool = s[0] == '-' || s[0] == '+';
    let body = if signed {
        vstd::slice::slice_subrange(s, 1, s.len())
    } else {
        s
    };
    proof {
        if signed {
            assert(body@ =~= s@.skip(1));
        }
        assert(body@ == without_sign(s@));
        if all_digits(body@) {
            lemma_digits_positive(body@);
        }
    }
    if body.len() == 0 {
        return None;
    }
    let negative: bool = s[0] == '-';
    match read_digits(body) {
        Some(v) => if negative {
            if v <= 0x7fff_ffff_ffff_ffff {
                Some(-(v as i64))
            } else if v == 0x8000_0000_0000_0000 {
                Some(i64::MIN)
            } else {
                None
            }
        } else if v <= 0x7fff_ffff_ffff_ffff {
            Some(v as i64)
        } else {
            None
        },
        None => None,
    }
}

/// Reads a signed number.
pub fn parse_i64(s: &str) -> (r: Option<i64>)
    ensures
        match r {
            Some(v) => number_within(s@, i64::MIN as int, i64::MAX as int) == Some(v as int),
            None => number_within(s@, i64::MIN as int, i64::MAX as int) is None,
        },
{
    let chars = chars_of(s);
    parse_i64_chars(chars.as_slice())
}

/// Reads a number without a minus sign.
pub fn parse_u64_chars(s: &[char]) -> (r: Option<u64>)
    ensures
        match r {
            Some(v) => natural_within(s@, u64::MAX as int) == Some(v as int),
            None => natural_within(s@, u64::MAX as int) is None,
        },
{
    if s.len() == 0 {
        return None;
    }
    if s[0] == '-' {
        return None;
    }
    let body = if s[0] == '+' {
        vstd::slice::slice_subrange(s, 1, s.len())
    } else {
        s
    };
    proof {
        if s@[0] == '+' {
            assert(body@ =~= s@.skip(1));
        }
        assert(body@ == without_sign(s@));
        if all_digits(body@) {
            lemma_digits_positive(body@);
        }
    }
    if body.len() == 0 {
        return None;
    }
    read_digits(body)
}

/// The digits of `n`, without leading zeros.
pub open spec fn digits_of(n: nat) -> Seq<char>
    decreases n,
{
    if n < 10 {
        seq![(48 + n) as char]
    } else {
        digits_of(n / 10).push((48 + n % 10) as char)
    }
}

/// `v` in decimal digits, with a minus sign where it is negative.
pub open spec fn decimal(v: int) -> Seq<char> {
    if v < 0 {
        seq!['-'] + digits_of((-v) as nat)
    } else {
        digits_of(v as nat)
    }
}

fn digit_char(d: u64) -> (c: char)
    requires
        d < 10,
    ensures
        c == (48 + d) as char,
{
    match char::from_u32(48 + d as u32) {
        Some(c) => c,
        None => '0',
    }
}

fn push_digits(out: &mut Vec<char>, n: u64)
    ensures
        final(out)@ == old(out)@ + digits_of(n as nat),
    decreases n,
{
    if n >= 10 {
        push_digits(out, n / 10);
    }
    out.push(digit_char(n % 10));
    proof {
        if n < 10 {
            assert(out@ =~= old(out)@ + digits_of(n as nat));
        } else {
            assert(out@ =~= old(out)@ + digits_of(n as nat));
        }
    }
}

/// Writes a number without a sign.
pub fn decimal_u64(v: u64) -> (s: String)
    ensures
        s@ == decimal(v as int),
{
    let mut out: Vec<char> = Vec::new();
    push_digits(&mut out, v);
    proof {
        assert(out@ =~= digits_of(v as nat));
    }
    text_of(out.as_slice())
}

/// Writes a signed number.
pub fn decimal_i64(v: i64) -> (s: String)
    ensures
        s@ == decimal(v as int),
{
    let mut out: Vec<char> = Vec::new();
    if v < 0 {
        out.push('-');
        let n: u64 = if v == i64::MIN {
            0x8000_0000_0000_0000
        } else {
            (-v) as u64
        };
        push_digits(&mut out, n);
        proof {
            assert(n == -(v as int));
            assert(out@ =~= seq!['-'] + digits_of(n as nat));
        }
    } else {
        push_digits(&mut out, v as u64);
        proof {
            assert(out@ =~= digits_of(v as nat));
        }
    }
    text_of(out.as_slice())
}

pub proof fn lemma_digits(n: nat)
    ensures
        digits_of(n).len() > 0,
        all_digits(digits_of(n)),
        digits_value(digits_of(n)) == n,
    decreases n,
{
    if n < 10 {
        let s = digits_of(n);
        assert(s.drop_last() =~= Seq::<char>::empty());
        assert(digits_value(s.drop_last()) == 0);
    } else {
        lemma_digits(n / 10);
        let s = digits_of(n);
        assert(s.drop_last() =~= digits_of(n / 10));
        assert forall|i: int| 0 <= i < s.len() implies is_digit(#[trigger] s[i]) by {
            if i < s.len() - 1 {
                assert(is_digit(digits_of(n / 10)[i]));
            }
        }
    }
}

/// Reading gives back every number that was written.
pub proof fn number_round_trip(v: int)
    ensures
        number_of(decimal(v)) == Some(v),
{
    if v < 0 {
        let n = (-v) as nat;
        lemma_digits(n);
        assert(decimal(v).skip(1) =~= digits_of(n));
        assert(without_sign(decimal(v)) == digits_of(n));
    } else {
        lemma_digits(v as nat);
        let s = decimal(v);
        assert(is_digit(s[0]));
        assert(without_sign(s) == s);
    }
}

/// `v` in decimal digits, with zeros before them up to `width` characters.
/// The sign counts as one and stands before the zeros.
pub open spec fn zero_padded(v: int, width: int) -> Seq<char> {
    let sign = if v < 0 {
        seq!['-']
    } else {
        Seq::empty()
    };
    let digits = digits_of(
        if v < 0 {
            (-v) as nat
        } else {
            v as nat
        },
    );
    let missing = width - sign.len() - digits.len();
    let zeros = if missing > 0 {
        missing
    } else {
        0
    };
    sign + Seq::new(zeros as nat, |i: int| '0') + digits
}

/// Writes a number with zeros before its digits.
pub fn padded_decimal(v: i64, width: usize) -> (s: String)
    ensures
        s@ == zero_padded(v as int, width as int),
{
    let n: u64 = if v == i64::MIN {
        0x8000_0000_0000_0000
    } else if v < 0 {
        (-v) as u64
    } else {
        v as u64
    };
    let mut digits: Vec<char> = Vec::new();
    push_digits(&mut digits, n);
    proof {
        assert(digits@ =~= digits_of(n as nat));
    }
    let ghost row = digits@;
    let mut out: Vec<char> = Vec::new();
    if v < 0 {
        out.push('-');
    }
    let sign: usize = out.len();
    let ghost head = out@;
    let mut k: usize = 0;
    proof {
        assert(head + Seq::new(0, |i: int| '0') =~= head);
    }
    while k < width && width - k > sign && width - k - sign > digits.len()
        invariant
            sign <= 1,
            sign == head.len(),
            digits@ == row,
            k <= width,
            k == 0 || k + sign + digits@.len() <= width,
            out@ == head + Seq::new(k as nat, |i: int| '0'),
        decreases width - k,
    {
        out.push('0');
        k = k + 1;
        proof {
            assert(out@ =~= head + Seq::new(k as nat, |i: int| '0'));
        }
    }
    out.append(&mut digits);
    proof {
        assert(out@ =~= zero_padded(v as int, width as int));
    }
    text_of(out.as_slice())
}

} // verus!
