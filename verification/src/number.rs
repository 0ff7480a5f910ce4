//! Decimal numbers as text.

use crate::text;
use vstd::prelude::*;
use vstd::string::{StringExecFns, StrSliceExecFns};

verus! {

/// The decimal digits of `n`.
pub open spec fn decimal(n: nat) -> Seq<u8>
    decreases n,
{
    if n < 10 {
        seq![(48 + n) as u8]
    } else {
        decimal(n / 10).push((48 + n % 10) as u8)
    }
}

/// The decimal digits of `n` as text.
pub open spec fn digits(n: nat) -> Seq<char> {
    decimal(n).map_values(|b: u8| b as char)
}

/// The decimal digits of `n`, with zeros before them up to `width` characters.
pub open spec fn padded(n: nat, width: nat) -> Seq<char> {
    let d = digits(n);
    if d.len() < width {
        Seq::new((width - d.len()) as nat, |i: int| '0') + d
    } else {
        d
    }
}

/// The decimal digits of `n`, with spaces before them up to `width` characters.
pub open spec fn spaced(n: nat, width: nat) -> Seq<char> {
    let d = digits(n);
    if d.len() < width {
        Seq::new((width - d.len()) as nat, |i: int| ' ') + d
    } else {
        d
    }
}

/// Every byte is a decimal digit.
pub open spec fn all_digits(s: Seq<u8>) -> bool {
    forall|i: int| 0 <= i < s.len() ==> 48 <= #[trigger] s[i] <= 57
}

/// The number that the digits write.
pub open spec fn value(s: Seq<u8>) -> int
    decreases s.len(),
{
    if s.len() == 0 {
        0
    } else {
        value(s.drop_last()) * 10 + (s.last() - 48)
    }
}

/// The number that a text writes as an `i32`: an optional sign, then digits and nothing else,
/// within the range of the type.
pub open spec fn read_i32(s: Seq<u8>) -> Option<i32> {
    let negative = s.len() > 0 && s[0] == 45;
    let signed = s.len() > 0 && (s[0] == 43 || s[0] == 45);
    let digits = if signed {
        s.skip(1)
    } else {
        s
    };
    let v = if negative {
        -value(digits)
    } else {
        value(digits)
    };
    if digits.len() > 0 && all_digits(digits) && i32::MIN <= v <= i32::MAX {
        Some(v as i32)
    } else {
        None
    }
}

/// The number that a text writes as a `u16`: an optional plus sign, then digits and nothing
/// else, within the range of the type.
pub open spec fn read_u16(s: Seq<u8>) -> Option<u16> {
    let digits = if s.len() > 0 && s[0] == 43 {
        s.skip(1)
    } else {
        s
    };
    if digits.len() > 0 && all_digits(digits) && value(digits) <= u16::MAX {
        Some(value(digits) as u16)
    } else {
        None
    }
}

proof fn lemma_value_nonnegative(s: Seq<u8>)
    requires
        all_digits(s),
    ensures
        value(s) >= 0,
    decreases s.len(),
{
    if s.len() > 0 {
        lemma_value_nonnegative(s.drop_last());
    }
}

proof fn lemma_value_grows(s: Seq<u8>, i: int)
    requires
        all_digits(s),
        0 <= i <= s.len(),
    ensures
        value(s.take(i)) <= value(s),
    decreases s.len() - i,
{
    if i < s.len() {
        lemma_value_grows(s, i + 1);
        assert(s.take(i + 1).drop_last() =~= s.take(i));
        lemma_value_nonnegative(s.take(i));
    } else {
        assert(s.take(i) =~= s);
    }
}

/// Reading back a number that was written gives the number.
pub proof fn law_decimal_reads_back(n: nat)
    ensures
        value(decimal(n)) == n,
        all_digits(decimal(n)),
        decimal(n).len() > 0,
        n <= i32::MAX ==> read_i32(decimal(n)) == Some(n as i32),
        n <= u16::MAX ==> read_u16(decimal(n)) == Some(n as u16),
    decreases n,
{
    let s = decimal(n);
    if n < 10 {
        assert(s.drop_last() =~= Seq::empty());
        assert(value(s.drop_last()) == 0);
        assert(s.last() == 48 + n);
    } else {
        law_decimal_reads_back(n / 10);
        assert(s.drop_last() =~= decimal(n / 10));
        assert(s.last() == 48 + n % 10);
    }
}

/// Appends the decimal digits of `n`.
pub fn push_decimal(out: &mut Vec<u8>, n: u64)
    ensures
        final(out)@ == old(out)@ + decimal(n as nat),
    decreases n,
{
    if n < 10 {
        out.push(48 + n as u8);
        assert(out@ =~= old(out)@ + decimal(n as nat));
    } else {
        push_decimal(out, n / 10);
        out.push(48 + (n % 10) as u8);
        assert(out@ =~= old(out)@ + decimal(n as nat));
    }
}

/// The digits of `n` as text.
fn to_digits(n: u64) -> (r: String)
    ensures
        r@ == digits(n as nat),
{
    let mut bytes: Vec<u8> = Vec::new();
    push_decimal(&mut bytes, n);
    assert(bytes@ =~= decimal(n as nat));
    let mut out: String = String::new();
    let mut i: usize = 0;
    while i < bytes.len()
        invariant
            i <= bytes@.len(),
            bytes@ == decimal(n as nat),
            out@ == digits(n as nat).take(i as int),
        decreases bytes@.len() - i,
    {
        text::push_char(&mut out, bytes[i] as char);
        i = i + 1;
        assert(out@ =~= digits(n as nat).take(i as int));
    }
    assert(out@ =~= digits(n as nat));
    out
}

/// Appends a character `n` times.
fn push_times(out: &mut String, c: char, n: usize)
    ensures
        final(out)@ == old(out)@ + Seq::new(n as nat, |i: int| c),
{
    let mut i: usize = 0;
    assert(out@ =~= old(out)@ + Seq::new(0, |i: int| c));
    while i < n
        invariant
            i <= n,
            out@ == old(out)@ + Seq::new(i as nat, |i: int| c),
        decreases n - i,
    {
        text::push_char(out, c);
        i = i + 1;
        assert(out@ =~= old(out)@ + Seq::new(i as nat, |i: int| c));
    }
}

/// Appends the digits of `n` to a text, with a character before them up to `width` characters.
fn push_filled(out: &mut String, n: u64, width: usize, c: char)
    ensures
        ({
            let d = digits(n as nat);
            final(out)@ == old(out)@ + if d.len() < width {
                Seq::new((width - d.len()) as nat, |i: int| c) + d
            } else {
                d
            }
        }),
{
    let d: String = to_digits(n);
    let count: usize = d.as_str().unicode_len();
    if count < width {
        push_times(out, c, width - count);
    }
    out.append(d.as_str());
    assert(out@ =~= old(out)@ + if count < width {
        Seq::new((width - count) as nat, |i: int| c) + d@
    } else {
        d@
    });
}

/// Appends the digits of `n` to a text.
pub fn push_digits(out: &mut String, n: u64)
    ensures
        final(out)@ == old(out)@ + digits(n as nat),
{
    push_filled(out, n, 0, '0');
}

/// Appends the digits of `n` to a text, with zeros before them up to `width` characters.
pub fn push_padded(out: &mut String, n: u64, width: usize)
    ensures
        final(out)@ == old(out)@ + padded(n as nat, width as nat),
{
    push_filled(out, n, width, '0');
    assert(out@ =~= old(out)@ + padded(n as nat, width as nat));
}

/// Appends the digits of `n` to a text, with spaces before them up to `width` characters.
pub fn push_spaced(out: &mut String, n: u64, width: usize)
    ensures
        final(out)@ == old(out)@ + spaced(n as nat, width as nat),
{
    push_filled(out, n, width, ' ');
    assert(out@ =~= old(out)@ + spaced(n as nat, width as nat));
}

/// Reads the digits `from..` as a number of at most `limit`.
fn parse_digits(s: &[u8], from: usize, limit: u64) -> (r: Option<u64>)
    requires
        from <= s@.len(),
        limit <= u32::MAX,
    ensures
        ({
            let digits = s@.skip(from as int);
            match r {
                Some(v) => digits.len() > 0 && all_digits(digits) && v == value(digits) && v
                    <= limit,
                None => digits.len() == 0 || !all_digits(digits) || value(digits) > limit,
            }
        }),
{
    let ghost digits = s@.skip(from as int);
    if s.len() == from {
        return None;
    }
    let mut v: u64 = 0;
    let mut i: usize = from;
    assert(digits.take(0) =~= Seq::empty());
    while i < s.len()
        invariant
            from <= i <= s@.len(),
            digits == s@.skip(from as int),
            limit <= u32::MAX,
            v <= limit,
            v == value(digits.take(i - from)),
            all_digits(digits.take(i - from)),
        decreases s@.len() - i,
    {
        let b: u8 = s[i];
        if b < 48 || b > 57 {
            assert(digits[i - from] == b);
            return None;
        }
        let w: u64 = v * 10 + (b - 48) as u64;
        proof {
            let t = digits.take(i - from + 1);
            assert(t.drop_last() =~= digits.take(i - from));
            assert(t.last() == b);
            assert(value(t) == w);
            assert(all_digits(t)) by {
                assert forall|j: int| 0 <= j < t.len() implies 48 <= #[trigger] t[j] <= 57 by {
                    if j < i - from {
                        assert(digits.take(i - from)[j] == t[j]);
                    }
                }
            }
            if w > limit && all_digits(digits) {
                lemma_value_grows(digits, i - from + 1);
            }
        }
        if w > limit {
            return None;
        }
        v = w;
        i = i + 1;
    }
    assert(digits.take(i - from) =~= digits);
    Some(v)
}

/// Reads a text as an `i32`.
pub fn parse_i32(s: &[u8]) -> (r: Option<i32>)
    ensures
        r == read_i32(s@),
{
    let signed: bool = s.len() > 0 && (s[0] == 43 || s[0] == 45);
    let negative: bool = s.len() > 0 && s[0] == 45;
    let from: usize = if signed {
        1
    } else {
        0
    };
    assert(!signed ==> s@.skip(0) =~= s@);
    let limit: u64 = if negative {
        0x8000_0000
    } else {
        0x7fff_ffff
    };
    proof {
        if all_digits(s@.skip(from as int)) {
            lemma_value_nonnegative(s@.skip(from as int));
        }
    }
    match parse_digits(s, from, limit) {
        Some(v) => if negative {
            Some((-(v as i64)) as i32)
        } else {
            Some(v as i32)
        },
        None => None,
    }
}

/// Reads a text as a `u16`.
pub fn parse_u16(s: &[u8]) -> (r: Option<u16>)
    ensures
        r == read_u16(s@),
{
    let from: usize = if s.len() > 0 && s[0] == 43 {
        1
    } else {
        0
    };
    assert(from == 0 ==> s@.skip(0) =~= s@);
    match parse_digits(s, from, 0xffff) {
        Some(v) => Some(v as u16),
        None => None,
    }
}

/// A number with zeros or spaces before it has at least the width asked for, no more than that
/// where its digits fit, and ends in its digits.
pub proof fn law_padding(n: nat, width: nat)
    ensures
        ({
            let d = digits(n);
            let (z, s) = (padded(n, width), spaced(n, width));
            &&& z.len() == s.len()
            &&& z.len() == if d.len() < width {
                width
            } else {
                d.len()
            }
            &&& z.skip(z.len() - d.len()) == d
            &&& s.skip(s.len() - d.len()) == d
            &&& forall|i: int| 0 <= i < z.len() - d.len() ==> #[trigger] z[i] == '0'
            &&& forall|i: int| 0 <= i < s.len() - d.len() ==> #[trigger] s[i] == ' '
        }),
{
    let d = digits(n);
    let (z, s) = (padded(n, width), spaced(n, width));
    assert(z.skip(z.len() - d.len()) =~= d);
    assert(s.skip(s.len() - d.len()) =~= d);
}

} // verus!
